use radicle_node::ids::{NodeId, ResourceId};
use radicle_node::routing::{Entry, Error, Table};

fn entry(r: u64, p: u64, t: u64) -> Entry {
    Entry { resource: ResourceId(r), provider: NodeId(p), timestamp: t }
}

#[test]
fn newer_announcement_supersedes() {
    let mut t = Table::new();
    assert!(t.insert(ResourceId(1), NodeId(7), 100));
    assert!(t.insert(ResourceId(1), NodeId(7), 150));
    assert_eq!(t.entries().len(), 1);
    assert_eq!(t.entries()[0].timestamp, 150);
}

#[test]
fn older_announcement_is_ignored() {
    // An announcement at T followed by one at T - 1 leaves T stored.
    let mut t = Table::new();
    assert!(t.insert(ResourceId(1), NodeId(7), 100));
    assert!(!t.insert(ResourceId(1), NodeId(7), 99));
    assert_eq!(t.entries().len(), 1);
    assert_eq!(t.entries()[0].timestamp, 100);
}

#[test]
fn equal_timestamp_is_a_no_op() {
    let mut t = Table::new();
    assert!(t.insert(ResourceId(1), NodeId(7), 100));
    assert!(!t.insert(ResourceId(1), NodeId(7), 100));
    assert_eq!(t.entries().len(), 1);
    assert_eq!(t.entries()[0].timestamp, 100);
}

#[test]
fn stored_timestamp_is_max_whatever_the_order() {
    let orders: [[u64; 3]; 3] = [[5, 9, 7], [9, 5, 7], [7, 5, 9]];
    for order in orders.iter() {
        let mut t = Table::new();
        for ts in order.iter() {
            t.insert(ResourceId(1), NodeId(7), *ts);
        }
        assert_eq!(t.entries().len(), 1);
        assert_eq!(t.entries()[0].timestamp, 9);
    }
}

#[test]
fn many_providers_per_resource() {
    let mut t = Table::new();
    t.insert(ResourceId(1), NodeId(7), 100);
    t.insert(ResourceId(1), NodeId(8), 90);
    t.insert(ResourceId(2), NodeId(7), 80);
    assert_eq!(t.entries().len(), 3);
    let provs = t.providers_of(ResourceId(1), 100, 1000);
    assert_eq!(provs.len(), 2);
    assert!(provs.contains(&NodeId(7)));
    assert!(provs.contains(&NodeId(8)));
}

#[test]
fn providers_of_never_returns_expired_entries() {
    // Expiry is enforced at read time, without prune having run.
    let mut t = Table::new();
    t.insert(ResourceId(1), NodeId(7), 100);
    t.insert(ResourceId(1), NodeId(8), 2000);
    let provs = t.providers_of(ResourceId(1), 2500, 1000);
    assert_eq!(provs, vec![NodeId(8)]);
    // With the clock inside every ttl, both are back.
    let provs = t.providers_of(ResourceId(1), 1000, 1000);
    assert_eq!(provs.len(), 2);
}

#[test]
fn prune_drops_expired_entries() {
    let mut t = Table::new();
    t.insert(ResourceId(1), NodeId(7), 100);
    t.insert(ResourceId(2), NodeId(8), 2000);
    t.prune(2500, 1000);
    assert_eq!(t.entries().len(), 1);
    assert_eq!(t.entries()[0].provider, NodeId(8));
}

#[test]
fn remove_drops_one_claim() {
    let mut t = Table::new();
    t.insert(ResourceId(1), NodeId(7), 100);
    t.insert(ResourceId(1), NodeId(8), 100);
    assert!(t.remove(ResourceId(1), NodeId(7)));
    assert!(!t.remove(ResourceId(1), NodeId(7)));
    assert_eq!(t.entries().len(), 1);
    assert_eq!(t.entries()[0].provider, NodeId(8));
}

#[test]
fn resources_of_lists_a_providers_claims() {
    let mut t = Table::new();
    t.insert(ResourceId(1), NodeId(7), 100);
    t.insert(ResourceId(2), NodeId(7), 100);
    t.insert(ResourceId(3), NodeId(8), 100);
    let res = t.resources_of(NodeId(7));
    assert_eq!(res.len(), 2);
    assert!(res.contains(&ResourceId(1)));
    assert!(res.contains(&ResourceId(2)));
}

#[test]
fn open_from_accepts_unique_keys() {
    let t = Table::open_from(vec![entry(1, 7, 100), entry(1, 8, 90)]).unwrap();
    assert_eq!(t.entries().len(), 2);
}

#[test]
fn open_from_refuses_a_duplicate_pair() {
    let r = Table::open_from(vec![entry(1, 7, 100), entry(2, 9, 50), entry(1, 7, 90)]);
    assert_eq!(r.err(), Some(Error::Corrupt));
}
