use attachment_service::intent::IntentState;
use attachment_service::node::{Node, NodeAvailability};
use attachment_service::observed::{ObservedState, ObservedStateLocation};
use attachment_service::scheduler::{ScheduleError, Scheduler};
use attachment_service::tenant_state::{
    ReconcileError, ReconcileNeeded, ReconcileResult, ReconcileWaitError, TenantState,
};
use attachment_service::types::{
    attached_location_conf, secondary_location_conf, Generation, NodeId, PlacementPolicy,
    Sequence, ShardIdentity, TenantConfig, TenantShardId,
};

fn shard_id() -> TenantShardId {
    TenantShardId {
        tenant_id: 1,
        shard_number: 0,
        shard_count: 1,
    }
}

fn shard_identity() -> ShardIdentity {
    ShardIdentity {
        number: 0,
        count: 1,
        stripe_size: 32768,
    }
}

fn registry(offline: &[u64]) -> Vec<Node> {
    [7u64, 8, 9, 10]
        .iter()
        .map(|&n| Node {
            id: NodeId(n),
            availability: if offline.contains(&n) {
                NodeAvailability::Offline
            } else {
                NodeAvailability::Active
            },
        })
        .collect()
}

fn scheduler() -> Scheduler {
    Scheduler::new(vec![NodeId(7), NodeId(8), NodeId(9), NodeId(10)])
}

fn fresh_single() -> TenantState {
    let mut state = TenantState::new(shard_id(), shard_identity(), PlacementPolicy::Single);
    state.schedule(&scheduler()).unwrap();
    state
}

#[test]
fn fresh_single_placement() {
    let mut state = TenantState::new(shard_id(), shard_identity(), PlacementPolicy::Single);
    assert_eq!(state.sequence, Sequence(1));
    state.schedule(&scheduler()).unwrap();
    assert_eq!(state.intent.attached, Some(NodeId(7)));
    assert!(state.intent.secondary.is_empty());
    assert_eq!(state.sequence, Sequence(2));
    assert!(state.dirty());
    let pageservers = registry(&[]);
    match state.maybe_reconcile(&pageservers) {
        ReconcileNeeded::Spawn(spawn, waiter) => {
            assert_eq!(spawn.sequence, Sequence(2));
            assert_eq!(spawn.supersedes, None);
            assert_eq!(waiter.seq, Sequence(2));
        }
        _ => panic!("expected a task to be spawned"),
    }
}

#[test]
fn promotion_to_double() {
    let mut state = fresh_single();
    state.policy = PlacementPolicy::Double(2);
    state.schedule(&scheduler()).unwrap();
    assert_eq!(state.intent.attached, Some(NodeId(7)));
    assert_eq!(state.intent.secondary, vec![NodeId(8), NodeId(9)]);
    assert_eq!(state.sequence, Sequence(3));
}

#[test]
fn node_offline_downgrade() {
    let mut state = fresh_single();
    state.policy = PlacementPolicy::Double(2);
    state.schedule(&scheduler()).unwrap();
    let changed = state.notify_offline(NodeId(7));
    assert!(changed);
    assert_eq!(state.intent.attached, None);
    assert_eq!(
        state.intent.secondary,
        vec![NodeId(8), NodeId(9), NodeId(7)]
    );
    state.schedule(&scheduler()).unwrap();
    // The only candidate left is 10; oversubscribed secondaries are kept.
    assert_eq!(state.intent.attached, Some(NodeId(10)));
    assert_eq!(state.intent.secondary.len(), 3);
}

#[test]
fn notify_offline_of_unattached_node_changes_nothing() {
    let mut state = fresh_single();
    let seq_before = state.sequence;
    let changed = state.notify_offline(NodeId(9));
    assert!(!changed);
    assert_eq!(state.intent.attached, Some(NodeId(7)));
    assert!(state.intent.secondary.is_empty());
    assert_eq!(state.sequence, seq_before);
}

#[test]
fn coalescing_waiters() {
    let mut state = fresh_single();
    let pageservers = registry(&[]);
    let first = state.maybe_reconcile(&pageservers);
    let w1 = match first {
        ReconcileNeeded::Spawn(_, waiter) => waiter,
        _ => panic!("expected a spawn for the first ask"),
    };
    // No mutation in between: the second ask must coalesce, not spawn.
    let second = state.maybe_reconcile(&pageservers);
    let w2 = match second {
        ReconcileNeeded::InFlight(waiter) => waiter,
        _ => panic!("expected the second ask to coalesce"),
    };
    assert_eq!(w1.seq, w2.seq);
    // The one task completing successfully resolves both waiters.
    let result = ReconcileResult {
        sequence: state.sequence,
        result: Ok(()),
        tenant_shard_id: state.tenant_shard_id,
        generation: state.generation,
        observed: wanted_observed(&state),
    };
    state.apply_reconcile_result(result);
    assert_eq!(state.check_waiter(&w1), Some(Ok(())));
    assert_eq!(state.check_waiter(&w2), Some(Ok(())));
}

/// The observed state a fully successful reconcile would report: every
/// intent role carrying exactly the wanted configuration.
fn wanted_observed(state: &TenantState) -> ObservedState {
    let mut observed = ObservedState::new();
    if let Some(attached) = state.intent.attached {
        observed.insert(
            attached,
            ObservedStateLocation {
                conf: Some(attached_location_conf(
                    state.generation,
                    &state.shard,
                    &state.config,
                )),
            },
        );
    }
    for secondary in &state.intent.secondary {
        observed.insert(
            *secondary,
            ObservedStateLocation {
                conf: Some(secondary_location_conf(&state.shard, &state.config)),
            },
        );
    }
    observed
}

#[test]
fn clean_shard_needs_no_reconcile() {
    let mut state = fresh_single();
    let pageservers = registry(&[]);
    let spawned = state.maybe_reconcile(&pageservers);
    assert!(matches!(spawned, ReconcileNeeded::Spawn(_, _)));
    let result = ReconcileResult {
        sequence: state.sequence,
        result: Ok(()),
        tenant_shard_id: state.tenant_shard_id,
        generation: state.generation,
        observed: wanted_observed(&state),
    };
    state.apply_reconcile_result(result);
    assert!(!state.dirty());
    // Asking twice with nothing dirty returns NotNeeded both times.
    assert!(matches!(
        state.maybe_reconcile(&pageservers),
        ReconcileNeeded::NotNeeded
    ));
    assert!(matches!(
        state.maybe_reconcile(&pageservers),
        ReconcileNeeded::NotNeeded
    ));
}

#[test]
fn superseded_in_flight() {
    let mut state = fresh_single();
    let pageservers = registry(&[]);
    let s = state.sequence;
    let first = state.maybe_reconcile(&pageservers);
    assert!(matches!(first, ReconcileNeeded::Spawn(_, _)));
    // Mutate: promote to Double(2); sequence advances past the in-flight
    // task's target.
    state.policy = PlacementPolicy::Double(2);
    state.schedule(&scheduler()).unwrap();
    assert_eq!(state.sequence, Sequence(s.0 + 1));
    match state.maybe_reconcile(&pageservers) {
        ReconcileNeeded::Spawn(spawn, _) => {
            assert_eq!(spawn.sequence, Sequence(s.0 + 1));
            assert_eq!(spawn.supersedes, Some(s));
        }
        _ => panic!("expected the stale task to be superseded"),
    }
    // The superseding task completes; done advances to the new sequence.
    let result = ReconcileResult {
        sequence: Sequence(s.0 + 1),
        result: Ok(()),
        tenant_shard_id: state.tenant_shard_id,
        generation: state.generation,
        observed: wanted_observed(&state),
    };
    state.apply_reconcile_result(result);
    assert_eq!(state.waiter.current, Sequence(s.0 + 1));
    assert!(state.reconciler.is_none());
}

#[test]
fn failure_path() {
    let mut state = fresh_single();
    let pageservers = registry(&[]);
    let waiter = match state.maybe_reconcile(&pageservers) {
        ReconcileNeeded::Spawn(_, waiter) => waiter,
        _ => panic!("expected a spawn"),
    };
    let s = state.sequence;
    let result = ReconcileResult {
        sequence: s,
        result: Err(ReconcileError {
            msg: String::from("nope"),
        }),
        tenant_shard_id: state.tenant_shard_id,
        generation: state.generation,
        observed: ObservedState::new(),
    };
    state.apply_reconcile_result(result);
    assert_eq!(state.last_error, "nope");
    assert_eq!(state.error_waiter.current, s);
    assert_eq!(state.waiter.current, Sequence(0));
    match state.check_waiter(&waiter) {
        Some(Err(ReconcileWaitError::Failed(id, msg))) => {
            assert_eq!(id, shard_id());
            assert_eq!(msg, "nope");
        }
        other => panic!("expected the waiter to fail, got {:?}", other),
    }
}

#[test]
fn waiter_pends_then_shuts_down() {
    let mut state = fresh_single();
    let pageservers = registry(&[]);
    let waiter = match state.maybe_reconcile(&pageservers) {
        ReconcileNeeded::Spawn(_, waiter) => waiter,
        _ => panic!("expected a spawn"),
    };
    // Nothing has completed: the waiter pends (a runtime would time it out
    // and report ReconcileWaitError::Timeout).
    assert_eq!(state.check_waiter(&waiter), None);
    let timeout = ReconcileWaitError::Timeout(shard_id());
    assert_eq!(timeout, ReconcileWaitError::Timeout(shard_id()));
    state.waiter.shut_down();
    assert_eq!(
        state.check_waiter(&waiter),
        Some(Err(ReconcileWaitError::Shutdown))
    );
}

#[test]
fn counters_never_pass_the_sequence() {
    let mut state = fresh_single();
    assert!(state.waiter.current.0 <= state.sequence.0);
    assert!(state.error_waiter.current.0 <= state.sequence.0);
    let result = ReconcileResult {
        sequence: state.sequence,
        result: Ok(()),
        tenant_shard_id: state.tenant_shard_id,
        generation: state.generation,
        observed: wanted_observed(&state),
    };
    state.apply_reconcile_result(result);
    assert!(state.waiter.current.0 <= state.sequence.0);
    assert!(state.error_waiter.current.0 <= state.sequence.0);
}

#[test]
fn generation_never_regresses() {
    let mut state = fresh_single();
    let result = ReconcileResult {
        sequence: state.sequence,
        result: Ok(()),
        tenant_shard_id: state.tenant_shard_id,
        generation: Generation(5),
        observed: wanted_observed(&state),
    };
    state.apply_reconcile_result(result);
    assert_eq!(state.generation, Generation(5));
    let stale = ReconcileResult {
        sequence: state.sequence,
        result: Err(ReconcileError {
            msg: String::from("stale"),
        }),
        tenant_shard_id: state.tenant_shard_id,
        generation: Generation(3),
        observed: ObservedState::new(),
    };
    state.apply_reconcile_result(stale);
    assert_eq!(state.generation, Generation(5));
}

#[test]
fn dirty_is_repeatable_and_reacts_to_state() {
    let state = fresh_single();
    assert_eq!(state.dirty(), state.dirty());
    let mut clean = fresh_single();
    let result = ReconcileResult {
        sequence: clean.sequence,
        result: Ok(()),
        tenant_shard_id: clean.tenant_shard_id,
        generation: clean.generation,
        observed: wanted_observed(&clean),
    };
    clean.apply_reconcile_result(result);
    assert_eq!(clean.dirty(), clean.dirty());
    assert!(!clean.dirty());
    // A generation bump makes the attached location stale again.
    clean.generation = Generation(clean.generation.0 + 1);
    assert!(clean.dirty());
}

#[test]
fn successful_result_removes_detached_nodes() {
    let mut state = fresh_single();
    state.observed.insert(
        NodeId(9),
        ObservedStateLocation {
            conf: Some(secondary_location_conf(&state.shard, &state.config)),
        },
    );
    let result = ReconcileResult {
        sequence: state.sequence,
        result: Ok(()),
        tenant_shard_id: state.tenant_shard_id,
        generation: state.generation,
        observed: wanted_observed(&state),
    };
    state.apply_reconcile_result(result);
    // Node 9 was absent from the successful report: it was detached.
    assert!(state.observed.get(NodeId(9)).is_none());
    assert!(state.observed.get(NodeId(7)).is_some());
}

#[test]
fn failed_result_merges_partially() {
    let mut state = fresh_single();
    state.observed.insert(NodeId(9), ObservedStateLocation { conf: None });
    let mut partial = ObservedState::new();
    partial.insert(
        NodeId(7),
        ObservedStateLocation {
            conf: Some(attached_location_conf(
                state.generation,
                &state.shard,
                &state.config,
            )),
        },
    );
    let result = ReconcileResult {
        sequence: state.sequence,
        result: Err(ReconcileError {
            msg: String::from("gave up"),
        }),
        tenant_shard_id: state.tenant_shard_id,
        generation: state.generation,
        observed: partial,
    };
    state.apply_reconcile_result(result);
    // Mentioned node overridden, unmentioned node untouched.
    assert!(state.observed.get(NodeId(7)).unwrap().conf.is_some());
    assert!(state.observed.get(NodeId(9)).is_some());
    assert!(state.observed.get(NodeId(9)).unwrap().conf.is_none());
}

#[test]
fn unknown_observation_on_live_node_forces_reconcile() {
    let mut state = fresh_single();
    let result = ReconcileResult {
        sequence: state.sequence,
        result: Ok(()),
        tenant_shard_id: state.tenant_shard_id,
        generation: state.generation,
        observed: wanted_observed(&state),
    };
    state.apply_reconcile_result(result);
    assert!(!state.dirty());
    state
        .observed
        .insert(NodeId(9), ObservedStateLocation { conf: None });
    // Node 9 is offline: the unknown is tolerated.
    assert!(matches!(
        state.maybe_reconcile(&registry(&[9])),
        ReconcileNeeded::NotNeeded
    ));
    // Node 9 comes back: the unknown must be cleaned up.
    assert!(matches!(
        state.maybe_reconcile(&registry(&[])),
        ReconcileNeeded::Spawn(_, _)
    ));
}

#[test]
fn schedule_without_capacity_fails_and_keeps_partial_intent() {
    let mut state = TenantState::new(shard_id(), shard_identity(), PlacementPolicy::Double(4));
    let seq_before = state.sequence;
    let err = state.schedule(&scheduler()).unwrap_err();
    assert_eq!(err, ScheduleError::NoCapacity);
    // The attach and the first picks stayed; the sequence did not move.
    assert_eq!(state.intent.attached, Some(NodeId(7)));
    assert_eq!(
        state.intent.secondary,
        vec![NodeId(8), NodeId(9), NodeId(10)]
    );
    assert_eq!(state.sequence, seq_before);
}

#[test]
fn single_policy_clears_secondaries() {
    let mut state = fresh_single();
    state.policy = PlacementPolicy::Double(2);
    state.schedule(&scheduler()).unwrap();
    state.policy = PlacementPolicy::Single;
    let seq_before = state.sequence;
    state.schedule(&scheduler()).unwrap();
    assert_eq!(state.intent.attached, Some(NodeId(7)));
    assert!(state.intent.secondary.is_empty());
    assert_eq!(state.sequence, Sequence(seq_before.0 + 1));
}

#[test]
fn intent_from_observed_prefers_highest_generation() {
    let mut state = TenantState::new(shard_id(), shard_identity(), PlacementPolicy::Single);
    state.observed.insert(
        NodeId(7),
        ObservedStateLocation {
            conf: Some(attached_location_conf(
                Generation(3),
                &state.shard,
                &state.config,
            )),
        },
    );
    state.observed.insert(
        NodeId(8),
        ObservedStateLocation {
            conf: Some(attached_location_conf(
                Generation(5),
                &state.shard,
                &state.config,
            )),
        },
    );
    state.observed.insert(
        NodeId(9),
        ObservedStateLocation {
            conf: Some(secondary_location_conf(&state.shard, &state.config)),
        },
    );
    state
        .observed
        .insert(NodeId(10), ObservedStateLocation { conf: None });
    state.intent_from_observed();
    assert_eq!(state.intent.attached, Some(NodeId(8)));
    // Every other observed node, unknowns included, becomes a secondary.
    assert_eq!(
        state.intent.secondary,
        vec![NodeId(7), NodeId(9), NodeId(10)]
    );
}

#[test]
fn intent_state_basics() {
    let empty = IntentState::new();
    assert_eq!(empty.attached, None);
    assert!(empty.secondary.is_empty());
    let single = IntentState::single(Some(NodeId(3)));
    assert_eq!(single.attached, Some(NodeId(3)));
    assert!(single.secondary.is_empty());
    let mut both = IntentState::single(Some(NodeId(3)));
    both.secondary.push(NodeId(4));
    assert_eq!(both.all_pageservers(), vec![NodeId(3), NodeId(4)]);
    assert!(both.notify_offline(NodeId(3)));
    assert_eq!(both.all_pageservers(), vec![NodeId(4), NodeId(3)]);
}
