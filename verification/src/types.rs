use vstd::prelude::*;

verus! {

/// Identifier of a pageserver node.
#[derive(Clone, Copy, Debug, PartialEq, Eq, Structural)]
pub struct NodeId(pub u64);

/// In-memory monotonic version of a shard's desired state: the target that
/// reconcile attempts chase.  Bumped whenever intent or config changes.
#[derive(Clone, Copy, Debug, PartialEq, Eq, Structural)]
pub struct Sequence(pub u64);

/// Durable monotonic token proving an attachment is newer than previous
/// ones; fences stale writers.  Incremented when a new attachment is
/// materialized on a node, never decremented.
#[derive(Clone, Copy, Debug, PartialEq, Eq, Structural)]
pub struct Generation(pub u32);

impl Generation {
    pub fn new(v: u32) -> (r: Generation)
        ensures
            r.0 == v,
    {
        Generation(v)
    }
}

/// Identity of a single shard of a tenant: the unit of placement.
#[derive(Clone, Copy, Debug, PartialEq, Eq, Structural)]
pub struct TenantShardId {
    pub tenant_id: u64,
    pub shard_number: u8,
    pub shard_count: u8,
}

/// Shard geometry.  Immutable per shard.
#[derive(Clone, Copy, Debug, PartialEq, Eq, Structural)]
pub struct ShardIdentity {
    pub number: u8,
    pub count: u8,
    pub stripe_size: u32,
}

/// Tenant configuration, passed through opaquely to pageservers.  Identical
/// for all shards of a tenant; the core only ever compares it for equality.
#[derive(Clone, Copy, Debug, PartialEq, Eq, Structural, Default)]
pub struct TenantConfig {
    pub data: u64,
}

/// How the tenant should be placed: exactly one attached location, and
/// either zero (`Single`) or exactly `k` (`Double(k)`) secondary locations.
#[derive(Clone, Copy, Debug, PartialEq, Eq, Structural)]
pub enum PlacementPolicy {
    Single,
    Double(usize),
}

/// Mode of a location configuration installed on a pageserver.
#[derive(Clone, Copy, Debug, PartialEq, Eq, Structural)]
pub enum LocationConfigMode {
    AttachedSingle,
    AttachedMulti,
    AttachedStale,
    Secondary,
}

impl LocationConfigMode {
    /// Whether this mode means the node serves the shard as an attached
    /// (traffic-serving) location.
    pub open spec fn spec_is_attached(self) -> bool {
        self != LocationConfigMode::Secondary
    }

    pub fn is_attached(&self) -> (r: bool)
        ensures
            r == self.spec_is_attached(),
    {
        !(*self == LocationConfigMode::Secondary)
    }
}

/// The configuration installed (or to be installed) for one shard on one
/// pageserver node.
#[derive(Clone, Copy, Debug)]
pub struct LocationConfig {
    pub mode: LocationConfigMode,
    /// Attached modes carry the generation of the attachment; secondary
    /// locations have none.
    pub generation: Option<u32>,
    pub shard_number: u8,
    pub shard_count: u8,
    pub shard_stripe_size: u32,
    pub tenant_conf: TenantConfig,
}

/// The configuration an attached location must carry: the given generation,
/// the shard's geometry, and the pass-through tenant config.
pub open spec fn spec_attached_location_conf(
    generation: Generation,
    shard: ShardIdentity,
    config: TenantConfig,
) -> LocationConfig {
    LocationConfig {
        mode: LocationConfigMode::AttachedSingle,
        generation: Some(generation.0),
        shard_number: shard.number,
        shard_count: shard.count,
        shard_stripe_size: shard.stripe_size,
        tenant_conf: config,
    }
}

/// The configuration a secondary location must carry: no generation.
pub open spec fn spec_secondary_location_conf(
    shard: ShardIdentity,
    config: TenantConfig,
) -> LocationConfig {
    LocationConfig {
        mode: LocationConfigMode::Secondary,
        generation: None,
        shard_number: shard.number,
        shard_count: shard.count,
        shard_stripe_size: shard.stripe_size,
        tenant_conf: config,
    }
}

pub fn attached_location_conf(
    generation: Generation,
    shard: &ShardIdentity,
    config: &TenantConfig,
) -> (r: LocationConfig)
    ensures
        r == spec_attached_location_conf(generation, *shard, *config),
{
    LocationConfig {
        mode: LocationConfigMode::AttachedSingle,
        generation: Some(generation.0),
        shard_number: shard.number,
        shard_count: shard.count,
        shard_stripe_size: shard.stripe_size,
        tenant_conf: *config,
    }
}

pub fn secondary_location_conf(shard: &ShardIdentity, config: &TenantConfig) -> (r:
    LocationConfig)
    ensures
        r == spec_secondary_location_conf(*shard, *config),
{
    LocationConfig {
        mode: LocationConfigMode::Secondary,
        generation: None,
        shard_number: shard.number,
        shard_count: shard.count,
        shard_stripe_size: shard.stripe_size,
        tenant_conf: *config,
    }
}

/// Equality of location configurations, decided field by field.
pub fn loc_conf_eq(a: &LocationConfig, b: &LocationConfig) -> (r: bool)
    ensures
        r == (*a == *b),
{
    let gen_eq = match (a.generation, b.generation) {
        (None, None) => true,
        (Some(x), Some(y)) => x == y,
        _ => false,
    };
    gen_eq && a.mode == b.mode && a.shard_number == b.shard_number && a.shard_count
        == b.shard_count && a.shard_stripe_size == b.shard_stripe_size && a.tenant_conf
        == b.tenant_conf
}

} // verus!
