use crate::intent::IntentState;
use crate::node::{node_availability, spec_node_lookup, Node, NodeAvailability};
use crate::observed::{
    lemma_lookup_none, lemma_lookup_push, spec_lookup, ObservedEntry, ObservedState,
    ObservedStateLocation,
};
use crate::scheduler::{
    lemma_schedule_shard_fresh, spec_schedule_shard, ScheduleError, Scheduler,
};
use crate::seqwait::SeqWait;
use crate::types::{
    attached_location_conf, loc_conf_eq, secondary_location_conf, spec_attached_location_conf,
    spec_secondary_location_conf, Generation, NodeId, PlacementPolicy, Sequence, ShardIdentity,
    TenantConfig, TenantShardId,
};
use vstd::prelude::*;

verus! {

broadcast use vstd::seq_lib::group_seq_properties;

/// A reconcile attempt failed; the text says why.
#[derive(Debug)]
pub struct ReconcileError {
    pub msg: String,
}

/// Why waiting on a reconcile did not end in success.
#[derive(Debug, PartialEq, Eq)]
pub enum ReconcileWaitError {
    Timeout(TenantShardId),
    Shutdown,
    Failed(TenantShardId, String),
}

/// A ticket for "reconciliation has caught up with sequence `seq`": it
/// resolves once the shard's done counter (success) or error counter
/// (failure) reaches `seq`, or the shard shuts down.
#[derive(Clone, Copy, Debug)]
pub struct ReconcilerWaiter {
    pub tenant_shard_id: TenantShardId,
    pub seq: Sequence,
}

/// The record a shard keeps of its in-flight reconcile task: the sequence
/// the task was spawned to satisfy.  The task itself (join handle,
/// cancellation token) is owned by the runtime layer around the core.
#[derive(Clone, Copy, Debug)]
pub struct ReconcilerHandle {
    pub sequence: Sequence,
}

/// What a completed reconcile task reports back, to be applied to the
/// shard it was spawned for.
pub struct ReconcileResult {
    pub sequence: Sequence,
    /// On errors, `observed` is an incomplete description of the world:
    /// nodes present in it override the shard's record, nodes absent from
    /// it are left untouched.
    pub result: Result<(), ReconcileError>,
    pub tenant_shard_id: TenantShardId,
    pub generation: Generation,
    pub observed: ObservedState,
}

/// The snapshot a newly spawned reconcile task takes with it.  The task
/// owns this copy outright; the shard may be mutated freely while the task
/// runs.
pub struct ReconcileSpawn {
    /// The sequence the task runs to.
    pub sequence: Sequence,
    pub tenant_shard_id: TenantShardId,
    pub shard: ShardIdentity,
    pub generation: Generation,
    pub intent: IntentState,
    pub config: TenantConfig,
    pub observed: ObservedState,
    /// The sequence of a superseded in-flight task, if one exists: the new
    /// task must cancel it and await its completion before starting work.
    pub supersedes: Option<Sequence>,
}

/// The decision `maybe_reconcile` comes to.
pub enum ReconcileNeeded {
    /// Intent and observed agree; no task is spawned and no waiter handed
    /// out.
    NotNeeded,
    /// A task for the current sequence is already in flight; it will
    /// satisfy the returned waiter.
    InFlight(ReconcilerWaiter),
    /// A new background task must be run with the given snapshot; it will
    /// satisfy the returned waiter.
    Spawn(ReconcileSpawn, ReconcilerWaiter),
}

/// Whether `a >= b` as generations, a missing generation ranking lowest.
pub open spec fn spec_gen_ge(a: Option<u32>, b: Option<u32>) -> bool {
    match (a, b) {
        (None, None) => true,
        (Some(_), None) => true,
        (None, Some(_)) => false,
        (Some(x), Some(y)) => x >= y,
    }
}

pub fn gen_ge(a: Option<u32>, b: Option<u32>) -> (r: bool)
    ensures
        r == spec_gen_ge(a, b),
{
    match (a, b) {
        (None, None) => true,
        (Some(_), None) => true,
        (None, Some(_)) => false,
        (Some(x), Some(y)) => x >= y,
    }
}

/// An observed entry whose configuration is known and attached-like: a
/// candidate to seed the attached intent from.
pub open spec fn spec_attached_candidate(e: ObservedEntry) -> bool {
    e.loc.conf matches Some(c) && c.mode.spec_is_attached()
}

/// Among the attached-like observed entries, the node carrying the highest
/// generation; ties go to the entry standing later.
pub open spec fn spec_best_attached(entries: Seq<ObservedEntry>) -> Option<(NodeId, Option<u32>)>
    decreases entries.len(),
{
    if entries.len() == 0 {
        None
    } else {
        let rest = spec_best_attached(entries.drop_last());
        let e = entries.last();
        if spec_attached_candidate(e) {
            let g = e.loc.conf->Some_0.generation;
            match rest {
                Some(b) => if spec_gen_ge(g, b.1) {
                    Some((e.node, g))
                } else {
                    rest
                },
                None => Some((e.node, g)),
            }
        } else {
            rest
        }
    }
}

/// The nodes of `entries` other than `att`, in order.
pub open spec fn spec_secondary_from_observed(
    entries: Seq<ObservedEntry>,
    att: Option<NodeId>,
) -> Seq<NodeId>
    decreases entries.len(),
{
    if entries.len() == 0 {
        Seq::empty()
    } else {
        let prefix = spec_secondary_from_observed(entries.drop_last(), att);
        if att != Some(entries.last().node) {
            prefix.push(entries.last().node)
        } else {
            prefix
        }
    }
}

/// Every node in the derived secondary list comes from `entries` and is
/// not `att`; with distinct entries the list is itself distinct.
pub proof fn lemma_secondary_from_observed(entries: Seq<ObservedEntry>, att: Option<NodeId>)
    requires
        forall|i: int, j: int| 0 <= i < j < entries.len() ==> entries[i].node != entries[j].node,
    ensures
        forall|x: NodeId|
            #[trigger] spec_secondary_from_observed(entries, att).contains(x) ==> att != Some(x)
                && exists|i: int| 0 <= i < entries.len() && entries[i].node == x,
        forall|i: int, j: int|
            0 <= i < j < spec_secondary_from_observed(entries, att).len()
                ==> spec_secondary_from_observed(entries, att)[i] != spec_secondary_from_observed(
                entries,
                att,
            )[j],
    decreases entries.len(),
{
    if entries.len() == 0 {
    } else {
        let rest = entries.drop_last();
        let e = entries.last();
        lemma_secondary_from_observed(rest, att);
        let prefix = spec_secondary_from_observed(rest, att);
        assert forall|x: NodeId|
            #[trigger] spec_secondary_from_observed(entries, att).contains(x) implies att != Some(
            x,
        ) && exists|i: int| 0 <= i < entries.len() && entries[i].node == x by {
            if prefix.contains(x) {
                let i = choose|i: int| 0 <= i < rest.len() && rest[i].node == x;
                assert(entries[i].node == x);
            } else {
                assert(x == e.node);
                assert(entries[entries.len() - 1].node == x);
            }
        }
        if att != Some(e.node) {
            assert forall|i: int, j: int|
                0 <= i < j < spec_secondary_from_observed(entries, att).len() implies
                spec_secondary_from_observed(entries, att)[i] != spec_secondary_from_observed(
                entries,
                att,
            )[j] by {
                if j < prefix.len() {
                } else {
                    assert(spec_secondary_from_observed(entries, att)[j] == e.node);
                    let x = prefix[i];
                    assert(prefix.contains(x));
                    let m = choose|m: int| 0 <= m < rest.len() && rest[m].node == x;
                    assert(entries[m].node == x);
                    assert(entries[m].node != e.node);
                }
            }
        }
    }
}

/// What `schedule` is specified to leave behind: the placement, the
/// sequence after it, and whether it succeeded.
pub struct ScheduleOutcome {
    pub attached: Option<NodeId>,
    pub secondary: Seq<NodeId>,
    pub sequence: int,
    pub ok: bool,
}

/// Grant `secondary` the first free candidate, over and over, until it has
/// `k` entries; `used` accumulates every node granted.  The second
/// component says whether `k` was reached before the candidates ran out.
pub open spec fn spec_fill_secondaries(
    avail: Seq<NodeId>,
    secondary: Seq<NodeId>,
    used: Seq<NodeId>,
    k: int,
) -> (Seq<NodeId>, bool)
    decreases k - secondary.len(),
{
    if secondary.len() >= k {
        (secondary, true)
    } else {
        match spec_schedule_shard(avail, used) {
            Some(n) => spec_fill_secondaries(avail, secondary.push(n), used.push(n), k),
            None => (secondary, false),
        }
    }
}

/// One tenant shard as the control plane tracks it: identity and geometry,
/// the durable generation, the desired placement derived from policy, the
/// best-effort observed state, and the bookkeeping that coordinates
/// background reconcile tasks with waiters.
pub struct TenantState {
    pub tenant_shard_id: TenantShardId,
    pub shard: ShardIdentity,
    /// Monotone version of the in-memory state; bumped on every intent or
    /// config change.  Reconcile tasks run to a particular sequence.
    pub sequence: Sequence,
    /// Latest generation number; the next attachment increments it and
    /// uses the incremented number.
    pub generation: Generation,
    /// High-level placement wish, provided externally.
    pub policy: PlacementPolicy,
    /// Which pageservers should fulfil which role; written by `schedule`.
    pub intent: IntentState,
    /// What we last learned is actually configured on pageservers.  If it
    /// does not match `intent` the shard needs reconciliation.
    pub observed: ObservedState,
    /// Passed through opaquely to pageservers.
    pub config: TenantConfig,
    /// Set while a reconcile task is in flight.
    pub reconciler: Option<ReconcilerHandle>,
    /// Done counter: reaches `n` once a reconcile at sequence `n` has
    /// succeeded.
    pub waiter: SeqWait,
    /// Error counter: reaches `n` once a reconcile at sequence `n` has
    /// failed.  A waiter that sees this pass its target stops waiting and
    /// propagates the error.
    pub error_waiter: SeqWait,
    /// The most recent error from a reconcile on this shard.
    pub last_error: String,
}

impl TenantState {
    /// Shard-wide invariant: the intent and observed records are well
    /// formed, neither counter has overtaken the sequence, and an in-flight
    /// reconcile never chases a sequence from the future.
    pub open spec fn inv(self) -> bool {
        &&& self.intent.inv()
        &&& self.observed.inv()
        &&& self.waiter.current.0 <= self.sequence.0
        &&& self.error_waiter.current.0 <= self.sequence.0
        &&& (self.reconciler matches Some(h) ==> h.sequence.0 <= self.sequence.0)
    }

    /// The configuration the attached node is supposed to carry.
    pub open spec fn spec_wanted_attached(self) -> ObservedStateLocation {
        ObservedStateLocation {
            conf: Some(spec_attached_location_conf(self.generation, self.shard, self.config)),
        }
    }

    /// The configuration every secondary node is supposed to carry.
    pub open spec fn spec_wanted_secondary(self) -> ObservedStateLocation {
        ObservedStateLocation {
            conf: Some(spec_secondary_location_conf(self.shard, self.config)),
        }
    }

    /// The attached location disagrees with intent.
    pub open spec fn spec_attached_dirty(self) -> bool {
        match self.intent.attached {
            Some(n) => spec_lookup(self.observed.locations@, n) != Some(
                self.spec_wanted_attached(),
            ),
            None => false,
        }
    }

    /// Some secondary location disagrees with intent.
    pub open spec fn spec_secondary_dirty(self) -> bool {
        exists|i: int|
            0 <= i < self.intent.secondary@.len() && spec_lookup(
                self.observed.locations@,
                self.intent.secondary@[i],
            ) != Some(self.spec_wanted_secondary())
    }

    /// A reconcile is required to bring the world into agreement with
    /// intent: some node named by intent is missing from observed, observed
    /// with an unknown configuration, or observed with the wrong one.
    pub open spec fn spec_dirty(self) -> bool {
        self.spec_attached_dirty() || self.spec_secondary_dirty()
    }

    pub fn new(tenant_shard_id: TenantShardId, shard: ShardIdentity, policy: PlacementPolicy) -> (r:
        TenantState)
        ensures
            r.tenant_shard_id == tenant_shard_id,
            r.shard == shard,
            r.policy == policy,
            r.sequence.0 == 1,
            r.generation.0 == 0,
            r.intent.attached is None,
            r.intent.secondary@.len() == 0,
            r.observed.locations@.len() == 0,
            r.config.data == 0,
            r.reconciler is None,
            r.waiter.current.0 == 0,
            !r.waiter.shutdown,
            r.error_waiter.current.0 == 0,
            !r.error_waiter.shutdown,
            r.last_error@.len() == 0,
            r.inv(),
    {
        TenantState {
            tenant_shard_id,
            shard,
            policy,
            intent: IntentState::new(),
            generation: Generation::new(0),
            observed: ObservedState::new(),
            config: TenantConfig { data: 0 },
            reconciler: None,
            sequence: Sequence(1),
            waiter: SeqWait::new(Sequence(0)),
            error_waiter: SeqWait::new(Sequence(0)),
            last_error: String::new(),
        }
    }

    /// A node went offline: stop wanting it attached.  If it was attached,
    /// downgrade it to a secondary and bump the sequence; otherwise do
    /// nothing.  Returns whether a change was made.
    pub fn notify_offline(&mut self, node_id: NodeId) -> (r: bool)
        requires
            old(self).inv(),
            old(self).sequence.0 < u64::MAX,
        ensures
            final(self).inv(),
            r == (old(self).intent.attached == Some(node_id)),
            r ==> final(self).intent.attached is None && final(self).intent.secondary@ == old(
                self,
            ).intent.secondary@.push(node_id) && final(self).sequence.0 == old(self).sequence.0
                + 1,
            !r ==> final(self).intent == old(self).intent && final(self).sequence == old(
                self,
            ).sequence,
            final(self).tenant_shard_id == old(self).tenant_shard_id,
            final(self).shard == old(self).shard,
            final(self).generation == old(self).generation,
            final(self).policy == old(self).policy,
            final(self).observed == old(self).observed,
            final(self).config == old(self).config,
            final(self).reconciler == old(self).reconciler,
            final(self).waiter == old(self).waiter,
            final(self).error_waiter == old(self).error_waiter,
            final(self).last_error == old(self).last_error,
    {
        let changed = self.intent.notify_offline(node_id);
        if changed {
            self.sequence = Sequence(self.sequence.0 + 1);
        }
        changed
    }

    /// Whether a reconcile is required, compared role by role against what
    /// intent wants installed.
    pub fn dirty(&self) -> (r: bool)
        ensures
            r == self.spec_dirty(),
    {
        if let Some(node_id) = self.intent.attached {
            let wanted = attached_location_conf(self.generation, &self.shard, &self.config);
            let clean = match self.observed.get(node_id) {
                Some(l) => match l.conf {
                    Some(c) => loc_conf_eq(&c, &wanted),
                    None => false,
                },
                None => false,
            };
            if !clean {
                return true;
            }
        }
        let wanted_sec = secondary_location_conf(&self.shard, &self.config);
        let n = self.intent.secondary.len();
        let mut i: usize = 0;
        while i < n
            invariant
                i <= n,
                n == self.intent.secondary@.len(),
                wanted_sec == spec_secondary_location_conf(self.shard, self.config),
                forall|k: int|
                    0 <= k < i ==> spec_lookup(
                        self.observed.locations@,
                        self.intent.secondary@[k],
                    ) == Some(self.spec_wanted_secondary()),
            decreases n - i,
        {
            let node_id = self.intent.secondary[i];
            let clean = match self.observed.get(node_id) {
                Some(l) => match l.conf {
                    Some(c) => loc_conf_eq(&c, &wanted_sec),
                    None => false,
                },
                None => false,
            };
            if !clean {
                return true;
            }
            i += 1;
        }
        false
    }

    /// For use on startup, when learning state from pageservers: generate
    /// an intent from the observed state, even if it violates the
    /// placement policy.  The attached intent goes to the attached-like
    /// observed location with the highest generation; every other observed
    /// node becomes a secondary intent (unknown observations included, as
    /// they may have usable state on disk).  Call `schedule` next to bring
    /// the result into line with policy.
    pub fn intent_from_observed(&mut self)
        requires
            old(self).inv(),
            old(self).intent.attached is None,
            old(self).intent.secondary@.len() == 0,
        ensures
            final(self).inv(),
            final(self).intent.attached == match spec_best_attached(
                old(self).observed.locations@,
            ) {
                Some(b) => Some(b.0),
                None => None::<NodeId>,
            },
            final(self).intent.secondary@ == spec_secondary_from_observed(
                old(self).observed.locations@,
                final(self).intent.attached,
            ),
            final(self).tenant_shard_id == old(self).tenant_shard_id,
            final(self).shard == old(self).shard,
            final(self).sequence == old(self).sequence,
            final(self).generation == old(self).generation,
            final(self).policy == old(self).policy,
            final(self).observed == old(self).observed,
            final(self).config == old(self).config,
            final(self).reconciler == old(self).reconciler,
            final(self).waiter == old(self).waiter,
            final(self).error_waiter == old(self).error_waiter,
            final(self).last_error == old(self).last_error,
    {
        let n = self.observed.locations.len();
        let mut best: Option<(NodeId, Option<u32>)> = None;
        let mut i: usize = 0;
        proof {
            assert(self.observed.locations@.subrange(0, 0) =~= Seq::<ObservedEntry>::empty());
        }
        while i < n
            invariant
                i <= n,
                n == self.observed.locations@.len(),
                best == spec_best_attached(self.observed.locations@.subrange(0, i as int)),
            decreases n - i,
        {
            let e = self.observed.locations[i];
            proof {
                let seen = self.observed.locations@.subrange(0, i + 1);
                assert(seen.drop_last() =~= self.observed.locations@.subrange(0, i as int));
                assert(seen.last() == e);
            }
            let candidate = match e.loc.conf {
                Some(c) => c.mode.is_attached(),
                None => false,
            };
            if candidate {
                let g = match e.loc.conf {
                    Some(c) => c.generation,
                    None => None,
                };
                let better = match best {
                    Some(b) => gen_ge(g, b.1),
                    None => true,
                };
                if better {
                    best = Some((e.node, g));
                }
            }
            i += 1;
        }
        proof {
            assert(self.observed.locations@.subrange(0, n as int) =~= self.observed.locations@);
        }
        if let Some(b) = best {
            self.intent.attached = Some(b.0);
        }
        let ghost att = self.intent.attached;
        let mut i: usize = 0;
        proof {
            assert(self.observed.locations@.subrange(0, 0) =~= Seq::<ObservedEntry>::empty());
            assert(self.intent.secondary@ =~= spec_secondary_from_observed(
                self.observed.locations@.subrange(0, 0),
                att,
            ));
        }
        while i < n
            invariant
                i <= n,
                n == self.observed.locations@.len(),
                old(self).inv(),
                self.intent.attached == att,
                self.intent.secondary@ == spec_secondary_from_observed(
                    self.observed.locations@.subrange(0, i as int),
                    att,
                ),
                self.tenant_shard_id == old(self).tenant_shard_id,
                self.shard == old(self).shard,
                self.sequence == old(self).sequence,
                self.generation == old(self).generation,
                self.policy == old(self).policy,
                self.observed == old(self).observed,
                self.config == old(self).config,
                self.reconciler == old(self).reconciler,
                self.waiter == old(self).waiter,
                self.error_waiter == old(self).error_waiter,
                self.last_error == old(self).last_error,
            decreases n - i,
        {
            let e = self.observed.locations[i];
            proof {
                let seen = self.observed.locations@.subrange(0, i + 1);
                assert(seen.drop_last() =~= self.observed.locations@.subrange(0, i as int));
                assert(seen.last() == e);
            }
            let push = match self.intent.attached {
                Some(a) => !(e.node == a),
                None => true,
            };
            if push {
                self.intent.secondary.push(e.node);
            }
            i += 1;
        }
        proof {
            assert(self.observed.locations@.subrange(0, n as int) =~= self.observed.locations@);
            lemma_secondary_from_observed(self.observed.locations@, att);
            match att {
                Some(a) => {
                    assert(!self.intent.spec_has_secondary(a)) by {
                        if self.intent.spec_has_secondary(a) {
                            let i = choose|i: int|
                                0 <= i < self.intent.secondary@.len() && self.intent.secondary@[i]
                                    == a;
                            assert(self.intent.secondary@.contains(a));
                        }
                    }
                },
                None => {},
            }
        }
    }

    /// What `schedule` does, stated over the candidate list `avail`:
    /// attach the first free candidate if nothing is attached, then under
    /// `Single` clear the secondaries, under `Double(k)` top the
    /// secondaries up to `k`; bump the sequence iff something changed and
    /// every pick succeeded.  On failure the picks already made stay and
    /// the sequence does not move.
    pub open spec fn spec_schedule(self, avail: Seq<NodeId>) -> ScheduleOutcome {
        match self.policy {
            PlacementPolicy::Single => match self.intent.attached {
                Some(a) => ScheduleOutcome {
                    attached: Some(a),
                    secondary: Seq::empty(),
                    sequence: if self.intent.secondary@.len() > 0 {
                        self.sequence.0 + 1
                    } else {
                        self.sequence.0 as int
                    },
                    ok: true,
                },
                None => match spec_schedule_shard(avail, self.intent.spec_all_pageservers()) {
                    Some(n) => ScheduleOutcome {
                        attached: Some(n),
                        secondary: Seq::empty(),
                        sequence: self.sequence.0 + 1,
                        ok: true,
                    },
                    None => ScheduleOutcome {
                        attached: None,
                        secondary: self.intent.secondary@,
                        sequence: self.sequence.0 as int,
                        ok: false,
                    },
                },
            },
            PlacementPolicy::Double(k) => match self.intent.attached {
                Some(a) => {
                    let fill = spec_fill_secondaries(
                        avail,
                        self.intent.secondary@,
                        self.intent.spec_all_pageservers(),
                        k as int,
                    );
                    ScheduleOutcome {
                        attached: Some(a),
                        secondary: fill.0,
                        sequence: if fill.1 && fill.0.len() != self.intent.secondary@.len() {
                            self.sequence.0 + 1
                        } else {
                            self.sequence.0 as int
                        },
                        ok: fill.1,
                    }
                },
                None => match spec_schedule_shard(avail, self.intent.spec_all_pageservers()) {
                    Some(n) => {
                        let fill = spec_fill_secondaries(
                            avail,
                            self.intent.secondary@,
                            self.intent.secondary@.push(n),
                            k as int,
                        );
                        ScheduleOutcome {
                            attached: Some(n),
                            secondary: fill.0,
                            sequence: if fill.1 {
                                self.sequence.0 + 1
                            } else {
                                self.sequence.0 as int
                            },
                            ok: fill.1,
                        }
                    },
                    None => ScheduleOutcome {
                        attached: None,
                        secondary: self.intent.secondary@,
                        sequence: self.sequence.0 as int,
                        ok: false,
                    },
                },
            },
        }
    }

    /// Rewrite `intent` so that it satisfies `policy`, asking the
    /// scheduler for a node wherever one is missing.  Bumps the sequence
    /// iff the intent changed and all picks succeeded; on `NoCapacity` the
    /// picks already made stay (the next attempt continues from there) and
    /// the sequence stays put.
    pub fn schedule(&mut self, scheduler: &Scheduler) -> (r: Result<(), ScheduleError>)
        requires
            old(self).inv(),
            old(self).sequence.0 < u64::MAX,
        ensures
            final(self).inv(),
            ({
                let o = old(self).spec_schedule(scheduler.nodes@);
                &&& final(self).intent.attached == o.attached
                &&& final(self).intent.secondary@ == o.secondary
                &&& final(self).sequence.0 == o.sequence
                &&& r == (if o.ok {
                    Ok::<(), ScheduleError>(())
                } else {
                    Err::<(), ScheduleError>(ScheduleError::NoCapacity)
                })
            }),
            final(self).sequence.0 >= old(self).sequence.0,
            old(self).intent.attached is Some ==> final(self).intent.attached == old(
                self,
            ).intent.attached,
            final(self).tenant_shard_id == old(self).tenant_shard_id,
            final(self).shard == old(self).shard,
            final(self).generation == old(self).generation,
            final(self).policy == old(self).policy,
            final(self).observed == old(self).observed,
            final(self).config == old(self).config,
            final(self).reconciler == old(self).reconciler,
            final(self).waiter == old(self).waiter,
            final(self).error_waiter == old(self).error_waiter,
            final(self).last_error == old(self).last_error,
    {
        let ghost avail = scheduler.nodes@;
        let mut used_pageservers = self.intent.all_pageservers();
        let mut modified = false;
        match self.policy {
            PlacementPolicy::Single => {
                if self.intent.attached.is_none() {
                    match scheduler.schedule_shard(&used_pageservers) {
                        Ok(node_id) => {
                            proof {
                                lemma_schedule_shard_fresh(avail, used_pageservers@, node_id);
                                assert forall|j: int|
                                    0 <= j < self.intent.secondary@.len() implies self
                                    .intent
                                    .secondary@[j] != node_id by {
                                    assert(used_pageservers@.contains(self.intent.secondary@[j]));
                                }
                            }
                            self.intent.attached = Some(node_id);
                            used_pageservers.push(node_id);
                            modified = true;
                        },
                        Err(e) => {
                            return Err(e);
                        },
                    }
                }
                if self.intent.secondary.len() > 0 {
                    self.intent.secondary = Vec::new();
                    modified = true;
                }
                proof {
                    assert(self.intent.secondary@ =~= Seq::<NodeId>::empty());
                }
            },
            PlacementPolicy::Double(secondary_count) => {
                if self.intent.attached.is_none() {
                    match scheduler.schedule_shard(&used_pageservers) {
                        Ok(node_id) => {
                            proof {
                                lemma_schedule_shard_fresh(avail, used_pageservers@, node_id);
                                assert forall|j: int|
                                    0 <= j < self.intent.secondary@.len() implies self
                                    .intent
                                    .secondary@[j] != node_id by {
                                    assert(used_pageservers@.contains(self.intent.secondary@[j]));
                                }
                            }
                            self.intent.attached = Some(node_id);
                            used_pageservers.push(node_id);
                            modified = true;
                        },
                        Err(e) => {
                            return Err(e);
                        },
                    }
                }
                let ghost att = self.intent.attached->Some_0;
                let ghost sec0 = old(self).intent.secondary@;
                let ghost used0 = used_pageservers@;
                let ghost attach_modified = modified;
                let ghost k = secondary_count as int;
                proof {
                    assert(self.intent.secondary@ == sec0);
                }
                while self.intent.secondary.len() < secondary_count
                    invariant
                        old(self).inv(),
                        old(self).intent.attached is Some ==> old(self).intent.attached == Some(
                            att,
                        ),
                        ({
                            let f = spec_fill_secondaries(avail, sec0, used0, k);
                            let o = old(self).spec_schedule(avail);
                            &&& o.attached == Some(att)
                            &&& o.secondary == f.0
                            &&& o.ok == f.1
                            &&& o.sequence == if f.1 && (attach_modified || f.0.len()
                                != sec0.len()) {
                                old(self).sequence.0 + 1
                            } else {
                                old(self).sequence.0 as int
                            }
                        }),
                        self.intent.attached == Some(att),
                        self.intent.inv(),
                        used_pageservers@.contains(att),
                        forall|j: int|
                            0 <= j < self.intent.secondary@.len()
                                ==> used_pageservers@.contains(#[trigger] self.intent.secondary@[j]),
                        self.intent.secondary@.len() >= sec0.len(),
                        spec_fill_secondaries(avail, self.intent.secondary@, used_pageservers@, k)
                            == spec_fill_secondaries(avail, sec0, used0, k),
                        modified == (attach_modified || self.intent.secondary@.len() > sec0.len()),
                        avail == scheduler.nodes@,
                        k == secondary_count as int,
                        self.tenant_shard_id == old(self).tenant_shard_id,
                        self.shard == old(self).shard,
                        self.sequence == old(self).sequence,
                        self.generation == old(self).generation,
                        self.policy == old(self).policy,
                        self.observed == old(self).observed,
                        self.config == old(self).config,
                        self.reconciler == old(self).reconciler,
                        self.waiter == old(self).waiter,
                        self.error_waiter == old(self).error_waiter,
                        self.last_error == old(self).last_error,
                    decreases secondary_count - self.intent.secondary.len(),
                {
                    match scheduler.schedule_shard(&used_pageservers) {
                        Ok(node_id) => {
                            proof {
                                lemma_schedule_shard_fresh(avail, used_pageservers@, node_id);
                                assert forall|j: int|
                                    0 <= j < self.intent.secondary@.len() implies self
                                    .intent
                                    .secondary@[j] != node_id by {
                                    assert(used_pageservers@.contains(self.intent.secondary@[j]));
                                }
                                assert(att != node_id) by {
                                    assert(used_pageservers@.contains(att));
                                }
                                assert(spec_fill_secondaries(
                                    avail,
                                    self.intent.secondary@,
                                    used_pageservers@,
                                    k,
                                ) == spec_fill_secondaries(
                                    avail,
                                    self.intent.secondary@.push(node_id),
                                    used_pageservers@.push(node_id),
                                    k,
                                ));
                            }
                            self.intent.secondary.push(node_id);
                            used_pageservers.push(node_id);
                            modified = true;
                        },
                        Err(e) => {
                            return Err(e);
                        },
                    }
                }
                proof {
                    assert(spec_fill_secondaries(
                        avail,
                        self.intent.secondary@,
                        used_pageservers@,
                        k,
                    ) == (self.intent.secondary@, true));
                }
            },
        }
        if modified {
            self.sequence = Sequence(self.sequence.0 + 1);
        }
        Ok(())
    }

    /// Some node is observed with an unknown configuration and is not
    /// offline, so a reconcile should clean it up.  Unknowns on offline
    /// nodes are tolerated until the node returns.
    pub open spec fn spec_dirty_observed(self, nodes: Seq<Node>) -> bool {
        exists|i: int|
            0 <= i < self.observed.locations@.len() && self.observed.locations@[i].loc.conf
                is None && spec_node_lookup(nodes, self.observed.locations@[i].node) != Some(
                NodeAvailability::Offline,
            )
    }

    /// Whether `maybe_reconcile` has work to hand out.
    pub open spec fn spec_needs_reconcile(self, nodes: Seq<Node>) -> bool {
        self.spec_dirty() || self.spec_dirty_observed(nodes)
    }

    /// Whether an in-flight reconcile task already chases the current
    /// sequence.
    pub open spec fn spec_in_flight_current(self) -> bool {
        self.reconciler matches Some(h) && h.sequence == self.sequence
    }

    /// Decide whether a reconcile is needed, after any mutation.  Returns
    /// `NotNeeded` when intent and observed agree; a waiter on the
    /// in-flight task when one already chases the current sequence; and
    /// otherwise a snapshot to run a new background task with, plus a
    /// waiter on it.  The snapshot's `supersedes` field names the stale
    /// in-flight task, if any, which the new task must cancel and await
    /// before it starts work.
    pub fn maybe_reconcile(&mut self, pageservers: &Vec<Node>) -> (r: ReconcileNeeded)
        requires
            old(self).inv(),
            forall|i: int|
                0 <= i < old(self).observed.locations@.len() ==> spec_node_lookup(
                    pageservers@,
                    #[trigger] old(self).observed.locations@[i].node,
                ) is Some,
        ensures
            final(self).inv(),
            final(self).tenant_shard_id == old(self).tenant_shard_id,
            final(self).shard == old(self).shard,
            final(self).sequence == old(self).sequence,
            final(self).generation == old(self).generation,
            final(self).policy == old(self).policy,
            final(self).intent == old(self).intent,
            final(self).observed == old(self).observed,
            final(self).config == old(self).config,
            final(self).waiter == old(self).waiter,
            final(self).error_waiter == old(self).error_waiter,
            final(self).last_error == old(self).last_error,
            !old(self).spec_needs_reconcile(pageservers@) ==> r is NotNeeded
                && final(self).reconciler == old(self).reconciler,
            old(self).spec_needs_reconcile(pageservers@) && old(self).spec_in_flight_current()
                ==> r == ReconcileNeeded::InFlight(
                ReconcilerWaiter {
                    tenant_shard_id: old(self).tenant_shard_id,
                    seq: old(self).sequence,
                },
            ) && final(self).reconciler == old(self).reconciler,
            old(self).spec_needs_reconcile(pageservers@) && !old(self).spec_in_flight_current()
                ==> ({
                &&& final(self).reconciler == Some(
                    ReconcilerHandle { sequence: old(self).sequence },
                )
                &&& r matches ReconcileNeeded::Spawn(spawn, w) && w == (ReconcilerWaiter {
                    tenant_shard_id: old(self).tenant_shard_id,
                    seq: old(self).sequence,
                }) && spawn.sequence == old(self).sequence && spawn.tenant_shard_id == old(
                    self,
                ).tenant_shard_id && spawn.shard == old(self).shard && spawn.generation == old(
                    self,
                ).generation && spawn.intent.attached == old(self).intent.attached
                    && spawn.intent.secondary@ == old(self).intent.secondary@ && spawn.config
                    == old(self).config && spawn.observed.locations@ == old(
                    self,
                ).observed.locations@ && spawn.supersedes == (match old(self).reconciler {
                    Some(h) => Some(h.sequence),
                    None => None::<Sequence>,
                })
            }),
    {
        let n = self.observed.locations.len();
        let mut dirty_observed = false;
        let mut i: usize = 0;
        while i < n
            invariant
                i <= n,
                n == self.observed.locations@.len(),
                dirty_observed == (exists|j: int|
                    0 <= j < i && self.observed.locations@[j].loc.conf is None
                        && spec_node_lookup(pageservers@, self.observed.locations@[j].node)
                        != Some(NodeAvailability::Offline)),
            decreases n - i,
        {
            let e = self.observed.locations[i];
            let availability = node_availability(pageservers, e.node);
            let is_offline = match availability {
                Some(NodeAvailability::Offline) => true,
                _ => false,
            };
            if e.loc.conf.is_none() && !is_offline {
                dirty_observed = true;
            }
            i += 1;
        }
        if !self.dirty() && !dirty_observed {
            return ReconcileNeeded::NotNeeded;
        }
        // A task already in flight for the current sequence will satisfy a
        // waiter at that sequence.
        match self.reconciler {
            Some(handle) => {
                if handle.sequence.0 == self.sequence.0 {
                    return ReconcileNeeded::InFlight(
                        ReconcilerWaiter {
                            tenant_shard_id: self.tenant_shard_id,
                            seq: self.sequence,
                        },
                    );
                }
            },
            None => {},
        }
        // Any remaining in-flight task chases a stale sequence; the new
        // task will cancel it and wait for it before doing its own work.
        let supersedes = match self.reconciler {
            Some(handle) => Some(handle.sequence),
            None => None,
        };
        let spawn = ReconcileSpawn {
            sequence: self.sequence,
            tenant_shard_id: self.tenant_shard_id,
            shard: self.shard,
            generation: self.generation,
            intent: self.intent.duplicate(),
            config: self.config,
            observed: self.observed.duplicate(),
            supersedes,
        };
        self.reconciler = Some(ReconcilerHandle { sequence: self.sequence });
        ReconcileNeeded::Spawn(
            spawn,
            ReconcilerWaiter { tenant_shard_id: self.tenant_shard_id, seq: self.sequence },
        )
    }

    /// Fold a completed task's report back into the shard.  On success the
    /// report's observed state replaces ours wholesale (nodes it leaves
    /// out were detached) and the done counter advances to the report's
    /// sequence.  On failure the report's observed state overrides only
    /// the nodes it mentions, the error is recorded, and the error counter
    /// advances.  Either way the generation never regresses, and a handle
    /// still chasing the report's sequence is cleared.
    pub fn apply_reconcile_result(&mut self, result: ReconcileResult)
        requires
            old(self).inv(),
            result.observed.inv(),
            result.sequence.0 <= old(self).sequence.0,
        ensures
            final(self).inv(),
            final(self).tenant_shard_id == old(self).tenant_shard_id,
            final(self).shard == old(self).shard,
            final(self).sequence == old(self).sequence,
            final(self).policy == old(self).policy,
            final(self).intent == old(self).intent,
            final(self).config == old(self).config,
            final(self).generation.0 == if result.generation.0 > old(self).generation.0 {
                result.generation.0
            } else {
                old(self).generation.0
            },
            final(self).generation.0 >= old(self).generation.0,
            final(self).reconciler == (if old(self).reconciler matches Some(h) && h.sequence
                == result.sequence {
                None::<ReconcilerHandle>
            } else {
                old(self).reconciler
            }),
            result.result is Ok ==> ({
                &&& final(self).observed.locations@ == result.observed.locations@
                &&& final(self).waiter.current.0 == if result.sequence.0 > old(
                    self,
                ).waiter.current.0 {
                    result.sequence.0
                } else {
                    old(self).waiter.current.0
                }
                &&& final(self).waiter.shutdown == old(self).waiter.shutdown
                &&& final(self).error_waiter == old(self).error_waiter
                &&& final(self).last_error == old(self).last_error
            }),
            result.result matches Err(e) ==> ({
                &&& forall|m: NodeId|
                    #![trigger final(self).observed.spec_get(m)]
                    final(self).observed.spec_get(m) == if spec_lookup(
                        result.observed.locations@,
                        m,
                    ) is Some {
                        spec_lookup(result.observed.locations@, m)
                    } else {
                        old(self).observed.spec_get(m)
                    }
                &&& final(self).last_error == e.msg
                &&& final(self).error_waiter.current.0 == if result.sequence.0 > old(
                    self,
                ).error_waiter.current.0 {
                    result.sequence.0
                } else {
                    old(self).error_waiter.current.0
                }
                &&& final(self).error_waiter.shutdown == old(self).error_waiter.shutdown
                &&& final(self).waiter == old(self).waiter
            }),
    {
        let ReconcileResult { sequence: rseq, result: outcome, tenant_shard_id: _, generation: rgen, observed: robserved } =
            result;
        match outcome {
            Ok(()) => {
                self.observed = robserved;
                self.waiter.advance(rseq);
            },
            Err(e) => {
                let n = robserved.locations.len();
                let mut i: usize = 0;
                proof {
                    assert forall|m: NodeId|
                        #![trigger self.observed.spec_get(m)]
                        self.observed.spec_get(m) == if spec_lookup(
                            robserved.locations@.subrange(0, 0),
                            m,
                        ) is Some {
                            spec_lookup(robserved.locations@.subrange(0, 0), m)
                        } else {
                            old(self).observed.spec_get(m)
                        } by {
                        assert(robserved.locations@.subrange(0, 0)
                            =~= Seq::<ObservedEntry>::empty());
                    }
                }
                while i < n
                    invariant
                        i <= n,
                        n == robserved.locations@.len(),
                        old(self).inv(),
                        robserved.inv(),
                        self.observed.inv(),
                        forall|m: NodeId|
                            #![trigger self.observed.spec_get(m)]
                            self.observed.spec_get(m) == if spec_lookup(
                                robserved.locations@.subrange(0, i as int),
                                m,
                            ) is Some {
                                spec_lookup(robserved.locations@.subrange(0, i as int), m)
                            } else {
                                old(self).observed.spec_get(m)
                            },
                        self.tenant_shard_id == old(self).tenant_shard_id,
                        self.shard == old(self).shard,
                        self.sequence == old(self).sequence,
                        self.generation == old(self).generation,
                        self.policy == old(self).policy,
                        self.intent == old(self).intent,
                        self.config == old(self).config,
                        self.reconciler == old(self).reconciler,
                        self.waiter == old(self).waiter,
                        self.error_waiter == old(self).error_waiter,
                        self.last_error == old(self).last_error,
                    decreases n - i,
                {
                    let e = robserved.locations[i];
                    let ghost before = self.observed.locations@;
                    self.observed.insert(e.node, e.loc);
                    proof {
                        let prefix = robserved.locations@.subrange(0, i as int);
                        let seen = robserved.locations@.subrange(0, i + 1);
                        assert(seen =~= prefix.push(e));
                        assert forall|k: int| 0 <= k < i implies prefix[k].node != e.node by {
                            assert(robserved.locations@[k].node != robserved.locations@[i as int].node);
                        }
                        lemma_lookup_none(prefix, e.node);
                        assert forall|m: NodeId|
                            #![trigger self.observed.spec_get(m)]
                            self.observed.spec_get(m) == if spec_lookup(seen, m) is Some {
                                spec_lookup(seen, m)
                            } else {
                                old(self).observed.spec_get(m)
                            } by {
                            lemma_lookup_push(prefix, e, m);
                        }
                    }
                    i += 1;
                }
                proof {
                    assert(robserved.locations@.subrange(0, n as int) =~= robserved.locations@);
                }
                self.last_error = e.msg;
                self.error_waiter.advance(rseq);
            },
        }
        if rgen.0 > self.generation.0 {
            self.generation = rgen;
        }
        let clear = match self.reconciler {
            Some(handle) => handle.sequence.0 == rseq.0,
            None => false,
        };
        if clear {
            self.reconciler = None;
        }
    }

    /// What a waiter can learn synchronously: `None` while the attempt at
    /// its sequence is still outstanding, otherwise the resolution.  A
    /// waiter resolves exactly when a reconcile attempt at its sequence
    /// has finished (with success or failure) or the shard has shut down;
    /// failure wins over success so that callers stop waiting and
    /// propagate the error.
    pub fn check_waiter(&self, waiter: &ReconcilerWaiter) -> (r: Option<
        Result<(), ReconcileWaitError>,
    >)
        ensures
            (r is Some) == (self.error_waiter.current.0 >= waiter.seq.0 || self.waiter.current.0
                >= waiter.seq.0 || self.waiter.shutdown || self.error_waiter.shutdown),
            self.error_waiter.current.0 >= waiter.seq.0 ==> (r matches Some(res) && res matches Err(
                err,
            ) && err matches ReconcileWaitError::Failed(id, msg) && id == waiter.tenant_shard_id
                && msg@ == self.last_error@),
            self.error_waiter.current.0 < waiter.seq.0 && self.waiter.current.0 >= waiter.seq.0
                ==> r == Some(Ok::<(), ReconcileWaitError>(())),
            self.error_waiter.current.0 < waiter.seq.0 && self.waiter.current.0 < waiter.seq.0 && (
            self.waiter.shutdown || self.error_waiter.shutdown) ==> r == Some(
                Err::<(), ReconcileWaitError>(ReconcileWaitError::Shutdown),
            ),
    {
        if self.error_waiter.ready(waiter.seq) {
            Some(
                Err(
                    ReconcileWaitError::Failed(
                        waiter.tenant_shard_id,
                        self.last_error.clone(),
                    ),
                ),
            )
        } else if self.waiter.ready(waiter.seq) {
            Some(Ok(()))
        } else if self.waiter.shutdown || self.error_waiter.shutdown {
            Some(Err(ReconcileWaitError::Shutdown))
        } else {
            None
        }
    }
}

/// The dirty test reads only the intent, the observed state, the
/// generation, the shard geometry and the config: two shards agreeing on
/// those agree on dirtiness, so calling `dirty` twice with no mutation in
/// between returns the same value.
pub proof fn lemma_dirty_is_a_pure_function(s: TenantState, t: TenantState)
    requires
        t.intent == s.intent,
        t.observed == s.observed,
        t.generation == s.generation,
        t.shard == s.shard,
        t.config == s.config,
    ensures
        t.spec_dirty() == s.spec_dirty(),
{
}

/// Asking again spawns nothing: after `maybe_reconcile` installs a task
/// for the current sequence, the shard looks exactly as dirty as before,
/// and a second ask finds that task in flight and coalesces with it
/// instead of spawning.
pub proof fn lemma_maybe_reconcile_idempotent(s: TenantState, t: TenantState, nodes: Seq<Node>)
    requires
        t.tenant_shard_id == s.tenant_shard_id,
        t.shard == s.shard,
        t.sequence == s.sequence,
        t.generation == s.generation,
        t.policy == s.policy,
        t.intent == s.intent,
        t.observed == s.observed,
        t.config == s.config,
        t.reconciler == Some(ReconcilerHandle { sequence: s.sequence }),
    ensures
        t.spec_needs_reconcile(nodes) == s.spec_needs_reconcile(nodes),
        t.spec_in_flight_current(),
{
}

/// Supersession: an in-flight task at a stale sequence never satisfies a
/// new ask, so `maybe_reconcile` hands out a fresh task whose snapshot
/// names the stale one in `supersedes`, to be cancelled and awaited.
pub proof fn lemma_supersession(s: TenantState)
    requires
        s.reconciler matches Some(h) && h.sequence.0 < s.sequence.0,
    ensures
        !s.spec_in_flight_current(),
{
}

/// A successful fill reaches exactly `k` secondaries, or keeps what it had
/// if that was already enough.
pub proof fn lemma_fill_secondaries_len(
    avail: Seq<NodeId>,
    secondary: Seq<NodeId>,
    used: Seq<NodeId>,
    k: int,
)
    ensures
        spec_fill_secondaries(avail, secondary, used, k).1 ==> spec_fill_secondaries(
            avail,
            secondary,
            used,
            k,
        ).0.len() == if secondary.len() >= k {
            secondary.len() as int
        } else {
            k
        },
    decreases k - secondary.len(),
{
    if secondary.len() >= k {
    } else {
        match spec_schedule_shard(avail, used) {
            Some(n) => {
                lemma_fill_secondaries_len(avail, secondary.push(n), used.push(n), k);
            },
            None => {},
        }
    }
}

/// After a successful `schedule` the intent conforms to policy: something
/// is attached; under `Single` there are no secondaries; under `Double(k)`
/// there are exactly `k`, provided the shard did not already carry more
/// than `k` (extra secondaries are never evicted).
pub proof fn lemma_schedule_satisfies_policy(s: TenantState, avail: Seq<NodeId>)
    requires
        s.spec_schedule(avail).ok,
        s.policy matches PlacementPolicy::Double(k) ==> s.intent.secondary@.len() <= k,
    ensures
        s.spec_schedule(avail).attached is Some,
        s.policy is Single ==> s.spec_schedule(avail).secondary.len() == 0,
        s.policy matches PlacementPolicy::Double(k) ==> s.spec_schedule(avail).secondary.len()
            == k,
{
    match s.policy {
        PlacementPolicy::Single => {},
        PlacementPolicy::Double(k) => {
            match s.intent.attached {
                Some(_) => {
                    lemma_fill_secondaries_len(
                        avail,
                        s.intent.secondary@,
                        s.intent.spec_all_pageservers(),
                        k as int,
                    );
                },
                None => {
                    match spec_schedule_shard(avail, s.intent.spec_all_pageservers()) {
                        Some(n) => {
                            lemma_fill_secondaries_len(
                                avail,
                                s.intent.secondary@,
                                s.intent.secondary@.push(n),
                                k as int,
                            );
                        },
                        None => {},
                    }
                },
            }
        },
    }
}

} // verus!
