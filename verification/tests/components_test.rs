use attachment_service::node::{node_availability, Node, NodeAvailability};
use attachment_service::observed::{ObservedState, ObservedStateLocation};
use attachment_service::scheduler::{ScheduleError, Scheduler};
use attachment_service::seqwait::SeqWait;
use attachment_service::types::{
    attached_location_conf, loc_conf_eq, secondary_location_conf, Generation, NodeId, Sequence,
    ShardIdentity, TenantConfig,
};

#[test]
fn seqwait_advances_monotonically() {
    let mut w = SeqWait::new(Sequence(0));
    assert!(!w.ready(Sequence(1)));
    w.advance(Sequence(3));
    assert_eq!(w.current, Sequence(3));
    // Idempotent and never regressing.
    w.advance(Sequence(3));
    assert_eq!(w.current, Sequence(3));
    w.advance(Sequence(1));
    assert_eq!(w.current, Sequence(3));
    assert!(w.ready(Sequence(3)));
    assert!(w.ready(Sequence(2)));
    assert!(!w.ready(Sequence(4)));
    assert!(!w.shutdown);
    w.shut_down();
    assert!(w.shutdown);
}

#[test]
fn scheduler_picks_first_free_candidate() {
    let s = Scheduler::new(vec![NodeId(7), NodeId(8), NodeId(9)]);
    assert_eq!(s.schedule_shard(&vec![]), Ok(NodeId(7)));
    assert_eq!(s.schedule_shard(&vec![NodeId(7)]), Ok(NodeId(8)));
    assert_eq!(
        s.schedule_shard(&vec![NodeId(8), NodeId(7)]),
        Ok(NodeId(9))
    );
    assert_eq!(
        s.schedule_shard(&vec![NodeId(9), NodeId(7), NodeId(8)]),
        Err(ScheduleError::NoCapacity)
    );
}

#[test]
fn observed_state_upserts_by_node() {
    let mut o = ObservedState::new();
    assert!(o.get(NodeId(1)).is_none());
    o.insert(NodeId(1), ObservedStateLocation { conf: None });
    o.insert(NodeId(2), ObservedStateLocation { conf: None });
    assert_eq!(o.locations.len(), 2);
    let shard = ShardIdentity {
        number: 0,
        count: 1,
        stripe_size: 1,
    };
    let conf = secondary_location_conf(&shard, &TenantConfig { data: 0 });
    o.insert(NodeId(1), ObservedStateLocation { conf: Some(conf) });
    // Overwriting does not duplicate the entry.
    assert_eq!(o.locations.len(), 2);
    assert!(o.get(NodeId(1)).unwrap().conf.is_some());
    assert!(o.get(NodeId(2)).unwrap().conf.is_none());
}

#[test]
fn location_conf_equality_is_field_by_field() {
    let shard = ShardIdentity {
        number: 0,
        count: 1,
        stripe_size: 1,
    };
    let config = TenantConfig { data: 0 };
    let a = attached_location_conf(Generation(1), &shard, &config);
    let b = attached_location_conf(Generation(1), &shard, &config);
    assert!(loc_conf_eq(&a, &b));
    let newer = attached_location_conf(Generation(2), &shard, &config);
    assert!(!loc_conf_eq(&a, &newer));
    let secondary = secondary_location_conf(&shard, &config);
    assert!(!loc_conf_eq(&a, &secondary));
}

#[test]
fn node_availability_is_looked_up_by_id() {
    let nodes = vec![
        Node {
            id: NodeId(1),
            availability: NodeAvailability::Active,
        },
        Node {
            id: NodeId(2),
            availability: NodeAvailability::Offline,
        },
    ];
    assert_eq!(
        node_availability(&nodes, NodeId(1)),
        Some(NodeAvailability::Active)
    );
    assert_eq!(
        node_availability(&nodes, NodeId(2)),
        Some(NodeAvailability::Offline)
    );
    assert_eq!(node_availability(&nodes, NodeId(3)), None);
}
