use radicle_node::address::{Book, Error, KnownAddress};
use radicle_node::ids::{HostAddr, NodeId};

fn addr(ip: u32, port: u16) -> HostAddr {
    HostAddr { ip, port }
}

fn record(node: u64, a: HostAddr, seen: u64) -> KnownAddress {
    KnownAddress { node: NodeId(node), addr: a, last_seen: seen, last_success: None, attempts: 0 }
}

#[test]
fn identical_upsert_is_idempotent() {
    // Re-inserting a record with identical fields leaves addresses_for
    // untouched, its length included.
    let mut b = Book::new();
    let rec = record(7, addr(1, 8776), 100);
    b.insert_or_update(rec);
    let after_one = b.addresses_for(NodeId(7));
    b.insert_or_update(rec);
    b.insert_or_update(rec);
    let after_three = b.addresses_for(NodeId(7));
    assert_eq!(after_one.len(), 1);
    assert_eq!(after_three.len(), 1);
    assert_eq!(after_one, after_three);
    assert_eq!(b.records().len(), 1);
}

#[test]
fn upsert_replaces_the_pairs_record() {
    let mut b = Book::new();
    b.insert_or_update(record(7, addr(1, 8776), 100));
    b.insert_or_update(KnownAddress {
        node: NodeId(7),
        addr: addr(1, 8776),
        last_seen: 200,
        last_success: Some(150),
        attempts: 0,
    });
    assert_eq!(b.records().len(), 1);
    assert_eq!(b.records()[0].last_seen, 200);
    assert_eq!(b.records()[0].last_success, Some(150));
}

#[test]
fn failed_attempt_bumps_attempts_only() {
    let mut b = Book::new();
    b.insert_or_update(record(7, addr(1, 8776), 100));
    b.record_attempt(NodeId(7), addr(1, 8776), false, 300);
    let r = b.get(NodeId(7), addr(1, 8776)).unwrap();
    assert_eq!(r.attempts, 1);
    assert_eq!(r.last_success, None);
    assert_eq!(r.last_seen, 300);
    b.record_attempt(NodeId(7), addr(1, 8776), false, 400);
    assert_eq!(b.get(NodeId(7), addr(1, 8776)).unwrap().attempts, 2);
}

#[test]
fn successful_attempt_stamps_success_and_clears_attempts() {
    let mut b = Book::new();
    b.insert_or_update(record(7, addr(1, 8776), 100));
    b.record_attempt(NodeId(7), addr(1, 8776), false, 200);
    b.record_attempt(NodeId(7), addr(1, 8776), true, 300);
    let r = b.get(NodeId(7), addr(1, 8776)).unwrap();
    assert_eq!(r.attempts, 0);
    assert_eq!(r.last_success, Some(300));
    assert_eq!(r.last_seen, 300);
}

#[test]
fn attempt_on_unknown_pair_starts_a_record() {
    let mut b = Book::new();
    b.record_attempt(NodeId(7), addr(1, 8776), false, 100);
    let r = b.get(NodeId(7), addr(1, 8776)).unwrap();
    assert_eq!(r.attempts, 1);
    assert_eq!(r.last_success, None);
}

#[test]
fn evict_stale_keeps_successful_and_fresh_records() {
    let mut b = Book::new();
    // Stale: never succeeded, last seen long ago.
    b.insert_or_update(record(1, addr(1, 1), 100));
    // Fresh: never succeeded, seen recently.
    b.insert_or_update(record(2, addr(2, 2), 1900));
    // Old but once successful.
    b.insert_or_update(KnownAddress {
        node: NodeId(3),
        addr: addr(3, 3),
        last_seen: 100,
        last_success: Some(150),
        attempts: 0,
    });
    b.evict_stale(2000, 500);
    assert_eq!(b.records().len(), 2);
    assert!(b.get(NodeId(1), addr(1, 1)).is_none());
    assert!(b.get(NodeId(2), addr(2, 2)).is_some());
    assert!(b.get(NodeId(3), addr(3, 3)).is_some());
}

#[test]
fn addresses_for_ranks_recent_success_first() {
    let mut b = Book::new();
    b.insert_or_update(KnownAddress {
        node: NodeId(7),
        addr: addr(1, 1),
        last_seen: 500,
        last_success: None,
        attempts: 3,
    });
    b.insert_or_update(KnownAddress {
        node: NodeId(7),
        addr: addr(2, 2),
        last_seen: 100,
        last_success: Some(400),
        attempts: 0,
    });
    b.insert_or_update(KnownAddress {
        node: NodeId(7),
        addr: addr(3, 3),
        last_seen: 100,
        last_success: Some(900),
        attempts: 0,
    });
    b.insert_or_update(record(9, addr(4, 4), 100));
    let ranked = b.addresses_for(NodeId(7));
    assert_eq!(ranked.len(), 3);
    assert_eq!(ranked[0].addr, addr(3, 3));
    assert_eq!(ranked[1].addr, addr(2, 2));
    assert_eq!(ranked[2].addr, addr(1, 1));
}

#[test]
fn addresses_for_breaks_success_ties_by_last_seen() {
    let mut b = Book::new();
    b.insert_or_update(record(7, addr(1, 1), 100));
    b.insert_or_update(record(7, addr(2, 2), 300));
    b.insert_or_update(record(7, addr(3, 3), 200));
    let ranked = b.addresses_for(NodeId(7));
    assert_eq!(ranked[0].addr, addr(2, 2));
    assert_eq!(ranked[1].addr, addr(3, 3));
    assert_eq!(ranked[2].addr, addr(1, 1));
}

#[test]
fn book_open_refuses_a_duplicate_pair() {
    let r = Book::open_from(vec![record(7, addr(1, 1), 100), record(7, addr(1, 1), 200)]);
    assert_eq!(r.err(), Some(Error::Corrupt));
    let ok = Book::open_from(vec![record(7, addr(1, 1), 100), record(7, addr(2, 2), 200)]);
    assert_eq!(ok.unwrap().records().len(), 2);
}
