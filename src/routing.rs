//! The gateway's routing state: the last known-good registry, one health
//! record per registered node, and the generation of the last published
//! snapshot. Registry updates, probe results and fetch errors change it;
//! `publish` turns it into a new snapshot.
use vstd::prelude::*;
use crate::health::{
    HealthConfig,
    HealthRecord,
    HealthState,
    ProbeOutcome,
    after_probe,
    after_probes,
    lemma_fail_threshold_marks_unhealthy,
    lemma_success_threshold_marks_healthy,
};
use crate::identity::Fingerprint;
use crate::node::{Node, NodeId, ids_unique, find_node, check_ids_unique};
use crate::snapshot::{
    Snapshot,
    build_snapshot,
    is_snapshot_of,
    eligible,
    known_subnets,
    lemma_eligible_sound,
    lemma_eligible_complete,
    lemma_rotated_same_elements,
    lemma_subnet_known,
};

verus! {

/// Why a registry update was refused; the previous node set stays in force.
#[derive(Clone, Copy, Debug, PartialEq, Eq, Structural)]
pub enum RegistryError {
    /// The update is not newer than the registry version already applied.
    Stale,
    /// Two records of the update share an id.
    DuplicateNode,
}

/// Registry, health table and publication counter of one gateway.
pub struct RoutingState {
    pub health_config: HealthConfig,
    pub registry_version: u64,
    pub nodes: Vec<Node>,
    /// `health[i]` is the record of `nodes[i]`.
    pub health: Vec<HealthRecord>,
    /// The generation of the last published snapshot (0: none yet).
    pub generation: u64,
    /// Registry fetches that failed; they change nothing else.
    pub fetch_errors: u64,
}

/// The health record that a node of a new registry version starts with: the
/// one it had if a record with its id and identity was registered before,
/// else a fresh one. A changed identity under the same id is a new node.
pub open spec fn carried_health(
    old_nodes: Seq<Node>,
    old_health: Seq<HealthRecord>,
    n: Node,
) -> HealthRecord {
    if exists|j: int| 0 <= j < old_nodes.len() && old_nodes[j].id == n.id && old_nodes[j].identity == n.identity {
        let j = choose|j: int|
            0 <= j < old_nodes.len() && old_nodes[j].id == n.id && old_nodes[j].identity == n.identity;
        old_health[j]
    } else {
        fresh_record()
    }
}

/// The record of a node never probed.
pub open spec fn fresh_record() -> HealthRecord {
    HealthRecord {
        state: HealthState::Unknown,
        consecutive_failures: 0,
        consecutive_successes: 0,
        last_probe_ms: 0,
        last_latency_ms: 0,
    }
}

/// Routing state with no registered node, as a gateway starts.
pub fn init_state(health_config: HealthConfig) -> (r: RoutingState)
    ensures
        r.wf(),
        r.health_config == health_config,
        r.registry_version == 0,
        r.nodes@.len() == 0,
        r.generation == 0,
        r.fetch_errors == 0,
{
    RoutingState {
        health_config,
        registry_version: 0,
        nodes: Vec::new(),
        health: Vec::new(),
        generation: 0,
        fetch_errors: 0,
    }
}

impl RoutingState {
    /// One health record per node, and node ids unique.
    pub open spec fn wf(&self) -> bool {
        &&& self.nodes@.len() == self.health@.len()
        &&& ids_unique(self.nodes@)
    }

    /// Whether `n` is registered and healthy.
    pub open spec fn is_eligible(&self, n: Node) -> bool {
        exists|i: int|
            0 <= i < self.nodes@.len() && self.nodes@[i] == n && self.health@[i].state
                == HealthState::Healthy
    }

    /// Applies the full node list of registry version `version`. Nodes that
    /// left lose their health record at once; nodes that stay with the same
    /// identity keep theirs.
    pub fn apply_registry(&mut self, version: u64, records: Vec<Node>) -> (r: Result<
        (),
        RegistryError,
    >)
        requires
            old(self).wf(),
        ensures
            final(self).wf(),
            version <= old(self).registry_version ==> r == Err::<(), RegistryError>(RegistryError::Stale),
            version > old(self).registry_version && !ids_unique(records@) ==> r == Err::<(), RegistryError>(
                RegistryError::DuplicateNode,
            ),
            version > old(self).registry_version && ids_unique(records@) ==> r is Ok,
            r is Err ==> final(self).nodes@ == old(self).nodes@ && final(self).health@ == old(self).health@
                && final(self).registry_version == old(self).registry_version,
            r is Ok ==> {
                &&& final(self).registry_version == version
                &&& final(self).nodes@ == records@
                &&& forall|i: int|
                    0 <= i < records@.len() ==> #[trigger] final(self).health@[i] == carried_health(
                        old(self).nodes@,
                        old(self).health@,
                        records@[i],
                    )
            },
            final(self).health_config == old(self).health_config,
            final(self).generation == old(self).generation,
            final(self).fetch_errors == old(self).fetch_errors,
    {
        if version <= self.registry_version {
            return Err(RegistryError::Stale);
        }
        if !check_ids_unique(records.as_slice()) {
            return Err(RegistryError::DuplicateNode);
        }
        let mut health: Vec<HealthRecord> = Vec::new();
        let mut i: usize = 0;
        while i < records.len()
            invariant
                self.wf(),
                i <= records@.len(),
                health@.len() == i,
                forall|m: int|
                    0 <= m < i ==> #[trigger] health@[m] == carried_health(
                        self.nodes@,
                        self.health@,
                        records@[m],
                    ),
            decreases records@.len() - i,
        {
            let n = records[i];
            let rec = match find_node(self.nodes.as_slice(), n.id) {
                Some(j) => {
                    if self.nodes[j].identity == n.identity {
                        proof {
                            let jj = choose|jj: int|
                                0 <= jj < self.nodes@.len() && self.nodes@[jj].id == n.id
                                    && self.nodes@[jj].identity == n.identity;
                            assert(jj == j as int);
                        }
                        self.health[j]
                    } else {
                        HealthRecord::new()
                    }
                },
                None => HealthRecord::new(),
            };
            health.push(rec);
            i += 1;
        }
        self.registry_version = version;
        self.nodes = records;
        self.health = health;
        Ok(())
    }

    /// Counts a failed registry fetch; the last known-good registry stays.
    pub fn record_fetch_error(&mut self)
        ensures
            final(self).fetch_errors == if old(self).fetch_errors == u64::MAX {
                u64::MAX
            } else {
                (old(self).fetch_errors + 1) as u64
            },
            final(self).nodes@ == old(self).nodes@,
            final(self).health@ == old(self).health@,
            final(self).registry_version == old(self).registry_version,
            final(self).generation == old(self).generation,
            final(self).health_config == old(self).health_config,
    {
        if self.fetch_errors < u64::MAX {
            self.fetch_errors = self.fetch_errors + 1;
        }
    }

    /// Applies the result of a probe of the node with id `id` and identity
    /// `identity`. A result for a node that is no longer registered with that
    /// identity is dropped (returns false).
    pub fn record_probe(
        &mut self,
        id: NodeId,
        identity: Fingerprint,
        outcome: ProbeOutcome,
        now_ms: u64,
    ) -> (r: bool)
        requires
            old(self).wf(),
        ensures
            final(self).wf(),
            r <==> exists|i: int|
                0 <= i < old(self).nodes@.len() && old(self).nodes@[i].id == id
                    && old(self).nodes@[i].identity == identity,
            final(self).nodes@ == old(self).nodes@,
            final(self).health@.len() == old(self).health@.len(),
            forall|i: int|
                0 <= i < old(self).nodes@.len() ==> #[trigger] final(self).health@[i] == if r
                    && old(self).nodes@[i].id == id {
                    after_probe(old(self).health@[i], old(self).health_config, outcome, now_ms)
                } else {
                    old(self).health@[i]
                },
            final(self).registry_version == old(self).registry_version,
            final(self).generation == old(self).generation,
            final(self).fetch_errors == old(self).fetch_errors,
            final(self).health_config == old(self).health_config,
    {
        match find_node(self.nodes.as_slice(), id) {
            Some(j) => {
                if self.nodes[j].identity == identity {
                    let rec = self.health[j].observe(self.health_config, outcome, now_ms);
                    self.health.set(j, rec);
                    true
                } else {
                    false
                }
            },
            None => false,
        }
    }

    /// Publishes the next generation of the routing table, built from the
    /// current registry and health records.
    pub fn publish(&mut self) -> (r: Snapshot)
        requires
            old(self).wf(),
            old(self).generation < u64::MAX,
        ensures
            final(self).wf(),
            final(self).generation == old(self).generation + 1,
            is_snapshot_of(r, old(self).nodes@, old(self).health@, final(self).generation),
            final(self).nodes@ == old(self).nodes@,
            final(self).health@ == old(self).health@,
            final(self).registry_version == old(self).registry_version,
            final(self).fetch_errors == old(self).fetch_errors,
            final(self).health_config == old(self).health_config,
    {
        self.generation = self.generation + 1;
        build_snapshot(self.nodes.as_slice(), self.health.as_slice(), self.generation)
    }
}

/// Every node that a published snapshot lists is, at publish time, a
/// registered node of that subnet in the healthy state, whatever registry
/// updates and probe results came before.
pub proof fn lemma_snapshot_lists_only_eligible(
    st: RoutingState,
    snap: Snapshot,
    g: u64,
    k: int,
    n: Node,
)
    requires
        st.wf(),
        is_snapshot_of(snap, st.nodes@, st.health@, g),
        0 <= k < snap.routes@.len(),
        snap.routes@[k].nodes@.contains(n),
    ensures
        st.is_eligible(n),
        n.subnet == snap.routes@[k].subnet,
{
    let s = snap.routes@[k].subnet;
    lemma_rotated_same_elements(eligible(st.nodes@, st.health@, s), g, n);
    lemma_eligible_sound(st.nodes@, st.health@, s, st.nodes@.len(), n);
}

/// A registered node that has just failed `fail_threshold` consecutive
/// probes is in no list of the next published snapshot.
pub proof fn lemma_failing_node_excluded(
    st: RoutingState,
    snap: Snapshot,
    g: u64,
    i: int,
    before: HealthRecord,
    now_ms: u64,
)
    requires
        st.wf(),
        st.health_config.wf(),
        0 <= i < st.nodes@.len(),
        st.health@[i] == after_probes(
            before,
            st.health_config,
            ProbeOutcome::Failure,
            st.health_config.fail_threshold as nat,
            now_ms,
        ),
        is_snapshot_of(snap, st.nodes@, st.health@, g),
    ensures
        forall|k: int| 0 <= k < snap.routes@.len() ==> !(#[trigger] snap.routes@[k]).nodes@.contains(st.nodes@[i]),
{
    lemma_fail_threshold_marks_unhealthy(before, st.health_config, now_ms);
    assert forall|k: int| 0 <= k < snap.routes@.len() implies !(#[trigger] snap.routes@[k]).nodes@.contains(st.nodes@[i]) by {
        if snap.routes@[k].nodes@.contains(st.nodes@[i]) {
            lemma_snapshot_lists_only_eligible(st, snap, g, k, st.nodes@[i]);
            let j = choose|j: int|
                0 <= j < st.nodes@.len() && st.nodes@[j] == st.nodes@[i] && st.health@[j].state
                    == HealthState::Healthy;
            assert(st.nodes@[j].id == st.nodes@[i].id);
        }
    }
}

/// A registered node that has just succeeded `success_threshold` consecutive
/// probes is listed again, under its subnet, in the next published snapshot.
pub proof fn lemma_recovered_node_included(
    st: RoutingState,
    snap: Snapshot,
    g: u64,
    i: int,
    before: HealthRecord,
    latency_ms: u64,
    now_ms: u64,
)
    requires
        st.wf(),
        st.health_config.wf(),
        0 <= i < st.nodes@.len(),
        st.health@[i] == after_probes(
            before,
            st.health_config,
            ProbeOutcome::Success { latency_ms },
            st.health_config.success_threshold as nat,
            now_ms,
        ),
        is_snapshot_of(snap, st.nodes@, st.health@, g),
    ensures
        exists|k: int|
            0 <= k < snap.routes@.len() && snap.routes@[k].subnet == st.nodes@[i].subnet
                && snap.routes@[k].nodes@.contains(st.nodes@[i]),
{
    lemma_success_threshold_marks_healthy(before, st.health_config, latency_ms, now_ms);
    let s = st.nodes@[i].subnet;
    lemma_subnet_known(st.nodes@, st.nodes@.len(), i);
    let subnets = known_subnets(st.nodes@);
    let k = choose|k: int| 0 <= k < subnets.len() && subnets[k] == s;
    assert(snap.routes@[k].subnet == s);
    lemma_eligible_complete(st.nodes@, st.health@, s, st.nodes@.len(), i);
    lemma_rotated_same_elements(eligible(st.nodes@, st.health@, s), g, st.nodes@[i]);
}

} // verus!
