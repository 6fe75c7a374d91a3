use ic_boundary::dispatch::{backoff, AttemptFailure, AttemptOutcome, DispatchError, FailureReason, RetryConfig, RetryContext, Step};
use ic_boundary::health::{HealthConfig, HealthRecord, HealthState, ProbeOutcome};
use ic_boundary::identity::{verify_identity, verify_presented_bytes, Fingerprint, FingerprintError};
use ic_boundary::node::{nid, Node};
use ic_boundary::persist::{load_seed, CheckpointLoadingMetrics};
use ic_boundary::routing::{init_state, RegistryError, RoutingState};
use ic_boundary::snapshot::{Snapshot, SubnetRoute};
use std::cell::RefCell;

fn key(n: u64) -> Fingerprint {
    Fingerprint { w0: n, w1: 0, w2: 0, w3: n }
}

fn node(id: u64, subnet: u64, k: u64) -> Node {
    Node { id: nid(id), subnet, addr: 0xfe80_0000_0000_0000_0000_0000_0000_0000 + id as u128, port: 8080, identity: key(k) }
}

fn cfg(fail: u32, success: u32) -> HealthConfig {
    HealthConfig { fail_threshold: fail, success_threshold: success }
}

fn retry() -> RetryConfig {
    RetryConfig { attempt_budget: 3, deadline_ms: 10_000, backoff_base_ms: 100, backoff_cap_ms: 1_000 }
}

fn probe_ok(st: &mut RoutingState, n: &Node, now: u64) {
    assert!(st.record_probe(n.id, n.identity, ProbeOutcome::Success { latency_ms: 5 }, now));
}

fn probe_fail(st: &mut RoutingState, n: &Node, now: u64) {
    assert!(st.record_probe(n.id, n.identity, ProbeOutcome::Failure, now));
}

#[test]
fn nid_and_init_state() {
    assert_eq!(nid(7).id, 7);
    let st = init_state(cfg(3, 2));
    assert_eq!(st.nodes.len(), 0);
    assert_eq!(st.generation, 0);
    assert_eq!(st.registry_version, 0);
    assert_eq!(st.health_config, cfg(3, 2));
}

#[test]
fn fingerprint_from_hex() {
    let text = "000102030405060708090a0b0c0d0e0f101112131415161718191A1B1C1D1E1F";
    let f = Fingerprint::parse_hex(text).unwrap();
    assert_eq!(f.w0, 0x0001020304050607);
    assert_eq!(f.w1, 0x08090a0b0c0d0e0f);
    assert_eq!(f.w2, 0x1011121314151617);
    assert_eq!(f.w3, 0x18191a1b1c1d1e1f);
    assert_eq!(Fingerprint::parse_hex("abc"), Err(FingerprintError::NotHex));
    assert_eq!(Fingerprint::parse_hex(&"zz".repeat(32)), Err(FingerprintError::NotHex));
    assert_eq!(Fingerprint::parse_hex(&"ab".repeat(31)), Err(FingerprintError::WrongLength));
    assert_eq!(Fingerprint::parse_hex(""), Err(FingerprintError::WrongLength));
}

#[test]
fn identity_is_compared_exactly() {
    let bytes: Vec<u8> = (0u8..32).collect();
    let f = Fingerprint::from_bytes(&bytes).unwrap();
    assert!(verify_presented_bytes(f, &bytes));
    let mut other = bytes.clone();
    other[31] ^= 1;
    assert!(!verify_presented_bytes(f, &other));
    assert!(!verify_presented_bytes(f, &bytes[..31]));
    assert!(verify_identity(key(1), key(1)));
    assert!(!verify_identity(key(1), key(2)));
    assert_eq!(Fingerprint::from_bytes(&bytes[..31]), None);
}

#[test]
fn health_hysteresis() {
    let c = cfg(3, 2);
    let r = HealthRecord::new();
    assert_eq!(r.state, HealthState::Unknown);
    let r = r.observe(c, ProbeOutcome::Success { latency_ms: 12 }, 100);
    assert_eq!(r.state, HealthState::Healthy);
    assert_eq!(r.last_latency_ms, 12);
    assert_eq!(r.last_probe_ms, 100);
    let r = r.observe(c, ProbeOutcome::Failure, 200);
    let r = r.observe(c, ProbeOutcome::Failure, 300);
    assert_eq!(r.state, HealthState::Healthy);
    assert_eq!(r.consecutive_failures, 2);
    let r = r.observe(c, ProbeOutcome::Failure, 400);
    assert_eq!(r.state, HealthState::Unhealthy);
    let r = r.observe(c, ProbeOutcome::Success { latency_ms: 3 }, 500);
    assert_eq!(r.state, HealthState::Unhealthy);
    assert_eq!(r.consecutive_failures, 0);
    let r = r.observe(c, ProbeOutcome::Success { latency_ms: 3 }, 600);
    assert_eq!(r.state, HealthState::Healthy);
    assert!(r.is_healthy());
}

#[test]
fn unknown_node_turns_unhealthy_after_threshold() {
    let c = cfg(2, 1);
    let r = HealthRecord::new().observe(c, ProbeOutcome::Failure, 1);
    assert_eq!(r.state, HealthState::Unknown);
    let r = r.observe(c, ProbeOutcome::Failure, 2);
    assert_eq!(r.state, HealthState::Unhealthy);
}

#[test]
fn failure_counter_saturates() {
    let r = HealthRecord { state: HealthState::Unhealthy, consecutive_failures: u32::MAX, consecutive_successes: 0, last_probe_ms: 0, last_latency_ms: 0 };
    let r = r.observe(cfg(1, 1), ProbeOutcome::Failure, 9);
    assert_eq!(r.consecutive_failures, u32::MAX);
}

#[test]
fn single_node_scenario_with_pinned_key() {
    let a = node(1, 10, 1);
    let mut st = init_state(cfg(3, 1));
    st.apply_registry(1, vec![a]).unwrap();
    probe_ok(&mut st, &a, 50);
    let snap = st.publish();
    assert_eq!(snap.generation, 1);
    assert_eq!(snap.nodes_for(10), Some(vec![a]));

    // A presents K1: success.
    let mut ctx = RetryContext::start(&snap, 10, retry(), 1_000).unwrap();
    let step = ctx.next_step(1_000);
    assert_eq!(step, Step::Attempt { node: a, delay_ms: 0 });
    assert!(verify_identity(a.identity, key(1)));
    assert_eq!(ctx.record_outcome(a.id, AttemptOutcome::Success(vec![1, 2, 3])), Some(Ok(vec![1, 2, 3])));

    // A presents K2: mismatch, and with no other candidate the request fails.
    let mut ctx = RetryContext::start(&snap, 10, retry(), 2_000).unwrap();
    let step = ctx.next_step(2_000);
    assert_eq!(step, Step::Attempt { node: a, delay_ms: 0 });
    assert!(!verify_identity(a.identity, key(2)));
    assert_eq!(ctx.record_outcome(a.id, AttemptOutcome::IdentityMismatch), None);
    assert_eq!(ctx.next_step(2_010), Step::GiveUp);
    assert_eq!(
        ctx.give_up(),
        DispatchError::AllAttemptsFailed { failures: vec![AttemptFailure { node: a.id, reason: FailureReason::IdentityMismatch }] }
    );
}

#[test]
fn transient_failure_retries_on_other_node() {
    let a = node(1, 10, 1);
    let b = node(2, 10, 2);
    let mut st = init_state(cfg(3, 1));
    st.apply_registry(1, vec![a, b]).unwrap();
    probe_ok(&mut st, &a, 10);
    probe_ok(&mut st, &b, 10);
    let snap = st.publish();
    // Generation 1 rotates the list of two by one.
    assert_eq!(snap.nodes_for(10), Some(vec![b, a]));
    let snap = st.publish();
    assert_eq!(snap.generation, 2);
    assert_eq!(snap.nodes_for(10), Some(vec![a, b]));

    let mut ctx = RetryContext::start(&snap, 10, retry(), 0).unwrap();
    let mut attempts = 0;
    let first = ctx.next_step(0);
    assert_eq!(first, Step::Attempt { node: a, delay_ms: 0 });
    attempts += 1;
    assert_eq!(ctx.record_outcome(a.id, AttemptOutcome::Transient), None);
    let second = ctx.next_step(30);
    assert_eq!(second, Step::Attempt { node: b, delay_ms: 100 });
    attempts += 1;
    assert_eq!(ctx.record_outcome(b.id, AttemptOutcome::Success(vec![9])), Some(Ok(vec![9])));
    assert_eq!(attempts, 2);
    assert_eq!(ctx.tried, vec![a.id, b.id]);
    assert_eq!(ctx.failures, vec![AttemptFailure { node: a.id, reason: FailureReason::Transient }]);
}

#[test]
fn dispatch_never_selects_a_node_twice() {
    let nodes: Vec<Node> = (1..=3).map(|i| node(i, 5, i)).collect();
    let mut st = init_state(cfg(1, 1));
    st.apply_registry(4, nodes.clone()).unwrap();
    for n in &nodes {
        probe_ok(&mut st, n, 1);
    }
    let snap = st.publish();
    let mut ctx = RetryContext::start(&snap, 5, RetryConfig { attempt_budget: 10, ..retry() }, 0).unwrap();
    let mut seen = Vec::new();
    loop {
        match ctx.next_step(1) {
            Step::Attempt { node, .. } => {
                assert!(!seen.contains(&node.id));
                seen.push(node.id);
                assert_eq!(ctx.record_outcome(node.id, AttemptOutcome::Transient), None);
            }
            Step::GiveUp => break,
        }
    }
    assert_eq!(seen.len(), 3);
    match ctx.give_up() {
        DispatchError::AllAttemptsFailed { failures } => assert_eq!(failures.len(), 3),
        other => panic!("unexpected {:?}", other),
    }
}

#[test]
fn unhealthy_subnet_fails_fast() {
    let a = node(1, 10, 1);
    let b = node(2, 10, 2);
    let c = node(3, 11, 3);
    let mut st = init_state(cfg(1, 1));
    st.apply_registry(1, vec![a, b, c]).unwrap();
    probe_fail(&mut st, &a, 1);
    probe_fail(&mut st, &b, 1);
    probe_ok(&mut st, &c, 1);
    let snap = st.publish();
    assert_eq!(snap.nodes_for(10), Some(vec![]));
    assert!(matches!(RetryContext::start(&snap, 10, retry(), 0), Err(DispatchError::NoEligibleNodes)));
    assert!(matches!(RetryContext::start(&snap, 99, retry(), 0), Err(DispatchError::NoEligibleNodes)));
    assert!(RetryContext::start(&snap, 11, retry(), 0).is_ok());
}

#[test]
fn snapshot_lists_only_registered_healthy_nodes() {
    let a = node(1, 10, 1);
    let b = node(2, 10, 2);
    let c = node(3, 20, 3);
    let mut st = init_state(cfg(2, 1));
    st.apply_registry(1, vec![a, b, c]).unwrap();
    probe_ok(&mut st, &a, 1);
    probe_ok(&mut st, &c, 1);
    let snap = st.publish();
    assert_eq!(snap.routes.len(), 2);
    assert_eq!(snap.routes[0].subnet, 10);
    assert_eq!(snap.routes[0].nodes, vec![a]);
    assert_eq!(snap.routes[1].subnet, 20);
    assert_eq!(snap.routes[1].nodes, vec![c]);
    // c leaves the registry: its record goes, and so does it from the table.
    st.apply_registry(2, vec![a, b]).unwrap();
    assert!(!st.record_probe(c.id, c.identity, ProbeOutcome::Success { latency_ms: 1 }, 2));
    let snap = st.publish();
    assert_eq!(snap.routes.len(), 1);
    assert_eq!(snap.nodes_for(20), None);
}

#[test]
fn failing_node_is_excluded_then_included_again() {
    let a = node(1, 10, 1);
    let b = node(2, 10, 2);
    let mut st = init_state(cfg(3, 2));
    st.apply_registry(1, vec![a, b]).unwrap();
    probe_ok(&mut st, &a, 1);
    probe_ok(&mut st, &b, 1);
    for t in 0..3 {
        probe_fail(&mut st, &a, 10 + t);
    }
    let snap = st.publish();
    assert_eq!(snap.nodes_for(10), Some(vec![b]));
    probe_ok(&mut st, &a, 20);
    assert_eq!(st.publish().nodes_for(10), Some(vec![b]));
    probe_ok(&mut st, &a, 21);
    let snap = st.publish();
    let listed = snap.nodes_for(10).unwrap();
    assert_eq!(listed.len(), 2);
    assert!(listed.contains(&a));
}

#[test]
fn registry_updates() {
    let a = node(1, 10, 1);
    let mut st = init_state(cfg(3, 1));
    st.apply_registry(5, vec![a]).unwrap();
    probe_ok(&mut st, &a, 1);
    assert_eq!(st.apply_registry(5, vec![]), Err(RegistryError::Stale));
    assert_eq!(st.apply_registry(4, vec![]), Err(RegistryError::Stale));
    assert_eq!(st.apply_registry(6, vec![a, a]), Err(RegistryError::DuplicateNode));
    assert_eq!(st.nodes, vec![a]);
    st.record_fetch_error();
    assert_eq!(st.fetch_errors, 1);
    assert_eq!(st.nodes, vec![a]);
    // Same id and identity: health carried over.
    let moved = Node { port: 9090, ..a };
    st.apply_registry(6, vec![moved]).unwrap();
    assert_eq!(st.health[0].state, HealthState::Healthy);
    // Same id, new identity: a new node, health starts over.
    let rekeyed = Node { identity: key(77), ..a };
    st.apply_registry(7, vec![rekeyed]).unwrap();
    assert_eq!(st.health[0].state, HealthState::Unknown);
    // A probe of the old identity is dropped.
    assert!(!st.record_probe(a.id, a.identity, ProbeOutcome::Success { latency_ms: 1 }, 3));
    assert_eq!(st.registry_version, 7);
}

#[test]
fn mismatch_on_one_node_leaves_the_other() {
    let a = node(1, 10, 1);
    let b = node(2, 10, 2);
    let mut st = init_state(cfg(3, 1));
    st.apply_registry(1, vec![a, b]).unwrap();
    probe_ok(&mut st, &a, 1);
    probe_ok(&mut st, &b, 1);
    st.publish();
    let snap = st.publish();
    let mut ctx = RetryContext::start(&snap, 10, retry(), 0).unwrap();
    assert_eq!(ctx.next_step(0), Step::Attempt { node: a, delay_ms: 0 });
    assert_eq!(ctx.record_outcome(a.id, AttemptOutcome::IdentityMismatch), None);
    assert_eq!(ctx.next_step(1), Step::Attempt { node: b, delay_ms: 100 });
    // Another request is not affected either.
    let mut other = RetryContext::start(&snap, 10, retry(), 0).unwrap();
    assert_eq!(other.next_step(0), Step::Attempt { node: a, delay_ms: 0 });
}

#[test]
fn non_retriable_ends_the_request() {
    let a = node(1, 10, 1);
    let mut st = init_state(cfg(3, 1));
    st.apply_registry(1, vec![a]).unwrap();
    probe_ok(&mut st, &a, 1);
    let snap = st.publish();
    let mut ctx = RetryContext::start(&snap, 10, retry(), 0).unwrap();
    ctx.next_step(0);
    assert_eq!(ctx.record_outcome(a.id, AttemptOutcome::NonRetriable), Some(Err(DispatchError::NonRetriable { node: a.id })));
}

#[test]
fn budget_and_deadline_stop_retries() {
    let nodes: Vec<Node> = (1..=4).map(|i| node(i, 5, i)).collect();
    let mut st = init_state(cfg(1, 1));
    st.apply_registry(1, nodes.clone()).unwrap();
    for n in &nodes {
        probe_ok(&mut st, n, 1);
    }
    let snap = st.publish();
    let mut ctx = RetryContext::start(&snap, 5, RetryConfig { attempt_budget: 2, ..retry() }, 0).unwrap();
    assert!(matches!(ctx.next_step(0), Step::Attempt { .. }));
    assert!(matches!(ctx.next_step(0), Step::Attempt { .. }));
    assert_eq!(ctx.next_step(0), Step::GiveUp);
    let mut ctx = RetryContext::start(&snap, 5, retry(), 100).unwrap();
    assert_eq!(ctx.deadline_ms, 10_100);
    assert_eq!(ctx.next_step(10_100), Step::GiveUp);
    let ctx = RetryContext::start(&snap, 5, RetryConfig { deadline_ms: u64::MAX, ..retry() }, 5).unwrap();
    assert_eq!(ctx.deadline_ms, u64::MAX);
}

#[test]
fn backoff_is_capped_exponential() {
    let got: Vec<u64> = (0..7).map(|n| backoff(100, 1_000, n)).collect();
    assert_eq!(got, vec![0, 100, 200, 400, 800, 1_000, 1_000]);
    assert_eq!(backoff(5_000, 1_000, 1), 1_000);
    assert_eq!(backoff(u64::MAX, u64::MAX, 3), u64::MAX);
}

struct Recorder {
    seen: RefCell<Vec<String>>,
}

impl CheckpointLoadingMetrics for Recorder {
    fn observe_broken_soft_invariant(&self, msg: String) {
        self.seen.borrow_mut().push(msg);
    }
}

#[test]
fn seed_from_persisted_snapshot() {
    let a = node(1, 10, 1);
    let b = node(2, 10, 2);
    let c = node(3, 20, 3);
    let seed = Snapshot {
        generation: 41,
        routes: vec![
            SubnetRoute { subnet: 10, nodes: vec![a, b, a] },
            SubnetRoute { subnet: 30, nodes: vec![c] },
        ],
    };
    let metrics = Recorder { seen: RefCell::new(Vec::new()) };
    let mut st = load_seed(&seed, cfg(3, 1), &metrics);
    assert_eq!(metrics.seen.borrow().len(), 2);
    assert_eq!(st.nodes, vec![a, b]);
    assert_eq!(st.registry_version, 0);
    assert!(st.health.iter().all(|h| h.state == HealthState::Healthy));
    let snap = st.publish();
    assert_eq!(snap.generation, 42);
    assert_eq!(snap.nodes_for(10).unwrap().len(), 2);
}
