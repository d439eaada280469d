//! The peer address book.
//!
//! The book stores one record per (peer, address) pair with reachability
//! metadata: when the address was last seen, when a connection to it last
//! succeeded, and how many attempts have been made since the last success.
//! Upserting a record is idempotent; connection outcomes feed the scoring, so
//! addresses that keep failing sink in the ranking that
//! [`Book::addresses_for`] returns.

use vstd::prelude::*;
use vstd::pervasive::VecAdditionalExecFns;
use crate::clock::expired;
use crate::ids::{HostAddr, NodeId};

verus! {

/// Error validating the persisted address records on open.
#[derive(PartialEq, Eq, Structural, Clone, Copy, Debug)]
pub enum Error {
    /// The persisted records hold two entries for one (peer, address) pair.
    Corrupt,
}

/// One known address of a peer, with reachability metadata.
#[derive(PartialEq, Eq, Structural, Clone, Copy, Debug)]
pub struct KnownAddress {
    pub node: NodeId,
    pub addr: HostAddr,
    /// When the address was last seen mentioned or used.
    pub last_seen: u64,
    /// When a connection to it last completed a handshake, if ever.
    pub last_success: Option<u64>,
    /// Connection attempts since the last success.
    pub attempts: u32,
}

/// True when `r` is the record for the pair `(n, a)`.
pub open spec fn keyed(r: KnownAddress, n: NodeId, a: HostAddr) -> bool {
    r.node == n && r.addr == a
}

/// Rank of a record when ordering a peer's addresses: the last success time,
/// with never-successful records below every successful one.
pub open spec fn rank(r: KnownAddress) -> int {
    match r.last_success {
        Some(t) => 1 + t as int,
        Option::None => 0,
    }
}

/// `a` is dialed no later than `b`: a more recent success first, on equal
/// success the more recently seen first.
pub open spec fn ranks_before(a: KnownAddress, b: KnownAddress) -> bool {
    rank(a) > rank(b) || (rank(a) == rank(b) && a.last_seen >= b.last_seen)
}

/// One more failed attempt, capped so the count never wraps.
pub open spec fn bump(attempts: u32) -> u32 {
    if attempts == u32::MAX {
        attempts
    } else {
        (attempts + 1) as u32
    }
}

/// The record stored after a connection attempt to `(n, a)` with outcome
/// `success` at time `now` meets the stored record `prev`: success stamps
/// `last_success` and clears the attempt count, failure bumps it; either way
/// the address was just seen. A pair attempted before it was ever stored
/// starts from a fresh record.
pub open spec fn attempted(
    prev: Option<KnownAddress>,
    n: NodeId,
    a: HostAddr,
    success: bool,
    now: u64,
) -> KnownAddress {
    let base = match prev {
        Some(r) => r,
        Option::None => KnownAddress {
            node: n,
            addr: a,
            last_seen: now,
            last_success: Option::None,
            attempts: 0,
        },
    };
    if success {
        KnownAddress {
            node: n,
            addr: a,
            last_seen: now,
            last_success: Some(now),
            attempts: 0,
        }
    } else {
        KnownAddress {
            node: n,
            addr: a,
            last_seen: now,
            last_success: base.last_success,
            attempts: bump(base.attempts),
        }
    }
}

/// A record is stale when it never succeeded and was last seen longer than
/// the time-to-live ago.
pub open spec fn stale(r: KnownAddress, now: u64, ttl: u64) -> bool {
    r.last_success is None && expired(r.last_seen, now, ttl)
}

/// Whether `s` holds a record for `(n, a)`.
pub open spec fn seq_has_key(s: Seq<KnownAddress>, n: NodeId, a: HostAddr) -> bool {
    exists|i: int| 0 <= i < s.len() && keyed(#[trigger] s[i], n, a)
}

/// The position of the record for `(n, a)`, unique when keys are unique.
pub open spec fn seq_index_of(s: Seq<KnownAddress>, n: NodeId, a: HostAddr) -> int {
    choose|i: int| 0 <= i < s.len() && keyed(#[trigger] s[i], n, a)
}

/// Unique keys: one record per (peer, address) pair.
pub open spec fn seq_wf(s: Seq<KnownAddress>) -> bool {
    forall|i: int, j: int|
        0 <= i < s.len() && 0 <= j < s.len() && i != j ==> !((#[trigger] s[i]).node
            == (#[trigger] s[j]).node && s[i].addr == s[j].addr)
}

/// The sequence after upserting `rec`: the record for its pair is replaced,
/// or appended when the pair is new.
pub open spec fn spec_upsert(s: Seq<KnownAddress>, rec: KnownAddress) -> Seq<KnownAddress> {
    if seq_has_key(s, rec.node, rec.addr) {
        s.update(seq_index_of(s, rec.node, rec.addr), rec)
    } else {
        s.push(rec)
    }
}

/// The address book: the records, unique per (peer, address) pair.
pub struct Book {
    records: Vec<KnownAddress>,
}

impl View for Book {
    type V = Seq<KnownAddress>;

    closed spec fn view(&self) -> Seq<KnownAddress> {
        self.records@
    }
}

impl Book {
    /// Well-formed: one record per (peer, address) pair.
    pub open spec fn wf(self) -> bool {
        seq_wf(self@)
    }

    /// Some record for `(n, a)` is stored.
    pub open spec fn contains_key(self, n: NodeId, a: HostAddr) -> bool {
        seq_has_key(self@, n, a)
    }

    /// The stored record for `(n, a)`, if any: the book's mathematical
    /// content, which every contract below speaks of.
    pub open spec fn lookup(self, n: NodeId, a: HostAddr) -> Option<KnownAddress> {
        if seq_has_key(self@, n, a) {
            Some(self@[seq_index_of(self@, n, a)])
        } else {
            Option::None
        }
    }

    /// In a well-formed book, a record found at `i` is the record for its pair.
    pub proof fn lemma_key_at(self, n: NodeId, a: HostAddr, i: int)
        requires
            self.wf(),
            0 <= i < self@.len(),
            keyed(self@[i], n, a),
        ensures
            self.contains_key(n, a),
            seq_index_of(self@, n, a) == i,
            self.lookup(n, a) == Some(self@[i]),
    {
        assert(seq_has_key(self@, n, a));
        let j = seq_index_of(self@, n, a);
        assert(0 <= j < self@.len() && keyed(self@[j], n, a));
        if j != i {
            assert(false);
        }
    }

    /// An empty book.
    pub fn new() -> (b: Book)
        ensures
            b.wf(),
            b@ =~= Seq::<KnownAddress>::empty(),
            forall|n: NodeId, a: HostAddr| b.lookup(n, a) is None,
    {
        let b = Book { records: Vec::new() };
        proof {
            assert forall|n: NodeId, a: HostAddr| b.lookup(n, a) is None by {
                assert(!seq_has_key(b@, n, a));
            }
        }
        b
    }

    /// Rebuild a book from persisted records, refusing a corrupt store that
    /// holds two records for one pair.
    pub fn open_from(records: Vec<KnownAddress>) -> (r: Result<Book, Error>)
        ensures
            match r {
                Ok(b) => b.wf() && b@ == records@,
                Err(e) => e == Error::Corrupt && exists|i: int, j: int|
                    0 <= i < j < records@.len() && (#[trigger] records@[i]).node
                        == (#[trigger] records@[j]).node && records@[i].addr
                        == records@[j].addr,
            },
    {
        let mut b = Book { records: Vec::new() };
        let n = records.len();
        let mut i: usize = 0;
        while i < n
            invariant
                n == records@.len(),
                i <= n,
                b.wf(),
                b@ == records@.take(i as int),
            decreases n - i,
        {
            let rec = records[i];
            let found = b.find(rec.node, rec.addr);
            if found.is_some() {
                proof {
                    let k = seq_index_of(b@, rec.node, rec.addr);
                    assert(records@.take(i as int)[k] == records@[k]);
                    assert(records@[k].node == records@[i as int].node && records@[k].addr
                        == records@[i as int].addr);
                }
                return Err(Error::Corrupt);
            }
            b.records.push(rec);
            proof {
                assert(b@ =~= records@.take(i as int + 1));
                let m = i as int;
                assert forall|x: int, y: int|
                    0 <= x < b@.len() && 0 <= y < b@.len() && x != y implies !((#[trigger] b@[x]).node
                    == (#[trigger] b@[y]).node && b@[x].addr == b@[y].addr) by {
                    if x == m || y == m {
                        let other = if x == m { y } else { x };
                        assert(b@[other] == records@.take(m)[other]);
                    }
                }
            }
            i = i + 1;
        }
        proof {
            assert(b@ =~= records@);
        }
        Ok(b)
    }

    /// The stored records, for persistence at shutdown.
    pub fn records(&self) -> (r: &Vec<KnownAddress>)
        ensures
            r@ == self@,
    {
        &self.records
    }

    /// The position of the record for `(node, addr)`, if one is stored.
    fn find(&self, node: NodeId, addr: HostAddr) -> (r: Option<usize>)
        requires
            self.wf(),
        ensures
            match r {
                Some(i) => i < self@.len() && keyed(self@[i as int], node, addr)
                    && self.contains_key(node, addr) && seq_index_of(self@, node, addr) == i,
                Option::None => !self.contains_key(node, addr),
            },
    {
        let n = self.records.len();
        let mut i: usize = 0;
        while i < n
            invariant
                n == self@.len(),
                i <= n,
                self.wf(),
                forall|j: int| 0 <= j < i ==> !keyed(#[trigger] self@[j], node, addr),
            decreases n - i,
        {
            let r = &self.records[i];
            if r.node == node && r.addr == addr {
                proof {
                    self.lemma_key_at(node, addr, i as int);
                }
                return Some(i);
            }
            i = i + 1;
        }
        Option::None
    }

    /// The stored record for `(node, addr)`, if any.
    pub fn get(&self, node: NodeId, addr: HostAddr) -> (r: Option<KnownAddress>)
        requires
            self.wf(),
        ensures
            r == self.lookup(node, addr),
    {
        match self.find(node, addr) {
            Some(i) => Some(self.records[i]),
            Option::None => Option::None,
        }
    }

    /// Upsert `rec`, keyed by its (peer, address) pair: the stored record for
    /// the pair becomes `rec`, no other pair changes, and re-inserting an
    /// identical record is a no-op ([`lemma_upsert_idempotent`]).
    pub fn insert_or_update(&mut self, rec: KnownAddress)
        requires
            old(self).wf(),
        ensures
            final(self).wf(),
            final(self)@ == spec_upsert(old(self)@, rec),
            final(self).lookup(rec.node, rec.addr) == Some(rec),
            forall|n: NodeId, a: HostAddr|
                !(n == rec.node && a == rec.addr) ==> final(self).lookup(n, a) == old(
                    self,
                ).lookup(n, a),
            final(self)@.len() == old(self)@.len() + if old(self).contains_key(
                rec.node,
                rec.addr,
            ) {
                0int
            } else {
                1int
            },
    {
        let found = self.find(rec.node, rec.addr);
        match found {
            Some(i) => {
                self.records.set(i, rec);
                proof {
                    self.lemma_update_frame(*old(self), i as int, rec.node, rec.addr);
                    assert(self@ == old(self)@.update(i as int, rec));
                }
            },
            Option::None => {
                self.records.push(rec);
                proof {
                    let n = old(self)@.len();
                    assert(self@ == old(self)@.push(rec));
                    assert forall|x: int, y: int|
                        0 <= x < self@.len() && 0 <= y < self@.len() && x != y implies !((
                    #[trigger] self@[x]).node == (#[trigger] self@[y]).node && self@[x].addr
                        == self@[y].addr) by {
                        if x == n || y == n {
                            let other = if x == n { y } else { x };
                            assert(self@[other] == old(self)@[other]);
                        } else {
                            assert(self@[x] == old(self)@[x] && self@[y] == old(self)@[y]);
                        }
                    }
                    self.lemma_key_at(rec.node, rec.addr, n as int);
                    assert forall|n2: NodeId, a2: HostAddr|
                        !(n2 == rec.node && a2 == rec.addr) implies self.lookup(n2, a2) == old(
                        self,
                    ).lookup(n2, a2) by {
                        self.lemma_push_frame(*old(self), n2, a2, rec.node, rec.addr);
                    }
                }
            },
        }
    }

    /// After replacing the record at `i` by one with the same pair, every
    /// lookup is what the replacement dictates.
    proof fn lemma_update_frame(self, prev: Book, i: int, n0: NodeId, a0: HostAddr)
        requires
            prev.wf(),
            0 <= i < prev@.len(),
            self@.len() == prev@.len(),
            keyed(prev@[i], n0, a0),
            keyed(self@[i], n0, a0),
            forall|j: int| 0 <= j < prev@.len() && j != i ==> self@[j] == prev@[j],
        ensures
            self.wf(),
            self.contains_key(n0, a0),
            seq_index_of(self@, n0, a0) == i,
            self.lookup(n0, a0) == Some(self@[i]),
            forall|n: NodeId, a: HostAddr|
                !(n == n0 && a == a0) ==> self.lookup(n, a) == prev.lookup(n, a),
    {
        assert forall|x: int, y: int|
            0 <= x < self@.len() && 0 <= y < self@.len() && x != y implies !((#[trigger] self@[x]).node
            == (#[trigger] self@[y]).node && self@[x].addr == self@[y].addr) by {
            assert(self@[x].node == prev@[x].node && self@[x].addr == prev@[x].addr);
            assert(self@[y].node == prev@[y].node && self@[y].addr == prev@[y].addr);
        }
        self.lemma_key_at(n0, a0, i);
        assert forall|n: NodeId, a: HostAddr|
            !(n == n0 && a == a0) implies self.lookup(n, a) == prev.lookup(n, a) by {
            if prev.contains_key(n, a) {
                let j = seq_index_of(prev@, n, a);
                assert(keyed(prev@[j], n, a));
                assert(j != i);
                prev.lemma_key_at(n, a, j);
                self.lemma_key_at(n, a, j);
            } else {
                if self.contains_key(n, a) {
                    let j = seq_index_of(self@, n, a);
                    assert(keyed(self@[j], n, a));
                    assert(j != i);
                    assert(keyed(prev@[j], n, a));
                }
            }
        }
    }

    /// Appending a record for a fresh pair leaves every other lookup as it was.
    proof fn lemma_push_frame(self, prev: Book, n: NodeId, a: HostAddr, nn: NodeId, na: HostAddr)
        requires
            prev.wf(),
            self.wf(),
            self@.len() == prev@.len() + 1,
            forall|j: int| 0 <= j < prev@.len() ==> self@[j] == prev@[j],
            keyed(self@[prev@.len() as int], nn, na),
            !(n == nn && a == na),
        ensures
            self.lookup(n, a) == prev.lookup(n, a),
    {
        let m = prev@.len() as int;
        if prev.contains_key(n, a) {
            let j = seq_index_of(prev@, n, a);
            assert(keyed(prev@[j], n, a));
            prev.lemma_key_at(n, a, j);
            self.lemma_key_at(n, a, j);
        } else {
            if self.contains_key(n, a) {
                let j = seq_index_of(self@, n, a);
                assert(keyed(self@[j], n, a));
                assert(j != m);
                assert(keyed(prev@[j], n, a));
            }
        }
    }

    /// Record the outcome of a connection attempt to `(node, addr)` at `now`:
    /// exactly one [`attempted`] step on the stored record, no other pair
    /// touched. A failure bumps `attempts` and leaves `last_success` alone; a
    /// success stamps it and clears the count.
    pub fn record_attempt(&mut self, node: NodeId, addr: HostAddr, success: bool, now: u64)
        requires
            old(self).wf(),
        ensures
            final(self).wf(),
            final(self).lookup(node, addr) == Some(
                attempted(old(self).lookup(node, addr), node, addr, success, now),
            ),
            forall|n: NodeId, a: HostAddr|
                !(n == node && a == addr) ==> final(self).lookup(n, a) == old(self).lookup(n, a),
    {
        let prev = self.get(node, addr);
        let base = match prev {
            Some(r) => r,
            Option::None => KnownAddress {
                node,
                addr,
                last_seen: now,
                last_success: Option::None,
                attempts: 0,
            },
        };
        let rec = if success {
            KnownAddress { node, addr, last_seen: now, last_success: Some(now), attempts: 0 }
        } else {
            let bumped = if base.attempts == u32::MAX {
                base.attempts
            } else {
                base.attempts + 1
            };
            KnownAddress {
                node,
                addr,
                last_seen: now,
                last_success: base.last_success,
                attempts: bumped,
            }
        };
        self.insert_or_update(rec);
    }

    /// Drop every stale record: one that never succeeded and was last seen
    /// longer than `ttl` ago. Every other record survives unchanged.
    pub fn evict_stale(&mut self, now: u64, ttl: u64)
        requires
            old(self).wf(),
        ensures
            final(self).wf(),
            forall|n: NodeId, a: HostAddr|
                final(self).lookup(n, a) == match old(self).lookup(n, a) {
                    Some(r) => if stale(r, now, ttl) {
                        Option::<KnownAddress>::None
                    } else {
                        Some(r)
                    },
                    Option::None => Option::<KnownAddress>::None,
                },
    {
        let n = self.records.len();
        let mut kept = Book { records: Vec::new() };
        let mut i: usize = 0;
        while i < n
            invariant
                n == self@.len(),
                i <= n,
                self.wf(),
                kept.wf(),
                forall|k: int|
                    0 <= k < kept@.len() ==> {
                        let r = #[trigger] kept@[k];
                        self.lookup(r.node, r.addr) == Some(r) && !stale(r, now, ttl)
                    },
                forall|j: int|
                    0 <= j < i && !stale(#[trigger] self@[j], now, ttl) ==> kept.contains_key(
                        self@[j].node,
                        self@[j].addr,
                    ),
                forall|k: int|
                    0 <= k < kept@.len() ==> exists|j: int|
                        0 <= j < i && #[trigger] self@[j] == #[trigger] kept@[k],
            decreases n - i,
        {
            let r = self.records[i];
            let keep = r.last_success.is_some() || now <= ttl || r.last_seen >= now - ttl;
            proof {
                assert(keep == !stale(self@[i as int], now, ttl));
            }
            if keep {
                proof {
                    self.lemma_key_at(r.node, r.addr, i as int);
                    if kept.contains_key(r.node, r.addr) {
                        let k = seq_index_of(kept@, r.node, r.addr);
                        assert(keyed(kept@[k], r.node, r.addr));
                        let j = choose|j: int| 0 <= j < i && #[trigger] self@[j] == kept@[k];
                        assert(keyed(self@[j], r.node, r.addr));
                        assert(false);
                    }
                }
                let ghost pre = kept;
                kept.records.push(r);
                proof {
                    let m = pre@.len() as int;
                    assert(kept@ == pre@.push(r));
                    assert forall|x: int, y: int|
                        0 <= x < kept@.len() && 0 <= y < kept@.len() && x != y implies !((
                    #[trigger] kept@[x]).node == (#[trigger] kept@[y]).node && kept@[x].addr
                        == kept@[y].addr) by {
                        if x == m || y == m {
                            let other = if x == m { y } else { x };
                            assert(kept@[other] == pre@[other]);
                            assert(!pre.contains_key(r.node, r.addr));
                        } else {
                            assert(kept@[x] == pre@[x] && kept@[y] == pre@[y]);
                        }
                    }
                    assert forall|j: int|
                        0 <= j < i + 1 && !stale(#[trigger] self@[j], now, ttl)
                            implies kept.contains_key(self@[j].node, self@[j].addr) by {
                        if j < i {
                            let k = seq_index_of(pre@, self@[j].node, self@[j].addr);
                            assert(keyed(pre@[k], self@[j].node, self@[j].addr));
                            assert(keyed(kept@[k], self@[j].node, self@[j].addr));
                        } else {
                            assert(keyed(kept@[m], self@[j].node, self@[j].addr));
                        }
                    }
                    assert forall|k: int| 0 <= k < kept@.len() implies exists|j: int|
                        0 <= j < i + 1 && #[trigger] self@[j] == #[trigger] kept@[k] by {
                        if k < m {
                            let j = choose|j: int| 0 <= j < i && #[trigger] self@[j] == pre@[k];
                            assert(0 <= j < i + 1 && self@[j] == kept@[k]);
                        } else {
                            assert(self@[i as int] == kept@[k]);
                        }
                    }
                }
            }
            i = i + 1;
        }
        proof {
            assert forall|n2: NodeId, a2: HostAddr|
                kept.lookup(n2, a2) == match old(self).lookup(n2, a2) {
                    Some(r) => if stale(r, now, ttl) {
                        Option::<KnownAddress>::None
                    } else {
                        Some(r)
                    },
                    Option::None => Option::<KnownAddress>::None,
                } by {
                if old(self).contains_key(n2, a2) {
                    let j = seq_index_of(old(self)@, n2, a2);
                    assert(keyed(old(self)@[j], n2, a2));
                    old(self).lemma_key_at(n2, a2, j);
                    if !stale(old(self)@[j], now, ttl) {
                        let k = seq_index_of(kept@, n2, a2);
                        assert(keyed(kept@[k], n2, a2));
                        kept.lemma_key_at(n2, a2, k);
                    } else {
                        if kept.contains_key(n2, a2) {
                            let k = seq_index_of(kept@, n2, a2);
                            assert(keyed(kept@[k], n2, a2));
                            kept.lemma_key_at(n2, a2, k);
                        }
                    }
                } else {
                    if kept.contains_key(n2, a2) {
                        let k = seq_index_of(kept@, n2, a2);
                        assert(keyed(kept@[k], n2, a2));
                    }
                }
            }
        }
        self.records = kept.records;
    }

    /// The known addresses of `peer`, best candidate first: ordered by most
    /// recent success, then by most recently seen. Exactly the book's records
    /// for `peer`, each once.
    pub fn addresses_for(&self, peer: NodeId) -> (res: Vec<KnownAddress>)
        requires
            self.wf(),
        ensures
            forall|k: int|
                0 <= k < res@.len() ==> self.lookup(peer, (#[trigger] res@[k]).addr) == Some(
                    res@[k],
                ) && res@[k].node == peer,
            forall|a: HostAddr|
                (#[trigger] self.lookup(peer, a)) is Some ==> res@.contains(
                    self.lookup(peer, a).unwrap(),
                ),
            forall|k1: int, k2: int|
                0 <= k1 <= k2 < res@.len() ==> ranks_before(res@[k1], res@[k2]),
            forall|k1: int, k2: int|
                0 <= k1 < k2 < res@.len() ==> res@[k1].addr != res@[k2].addr,
    {
        let n = self.records.len();
        let mut work: Vec<KnownAddress> = Vec::new();
        let mut i: usize = 0;
        while i < n
            invariant
                n == self@.len(),
                i <= n,
                self.wf(),
                forall|k: int|
                    0 <= k < work@.len() ==> self.lookup(peer, (#[trigger] work@[k]).addr)
                        == Some(work@[k]) && work@[k].node == peer,
                forall|j: int|
                    0 <= j < i && (#[trigger] self@[j]).node == peer ==> work@.contains(self@[j]),
                forall|k1: int, k2: int|
                    0 <= k1 < k2 < work@.len() ==> work@[k1].addr != work@[k2].addr,
                forall|k: int|
                    0 <= k < work@.len() ==> exists|j: int|
                        0 <= j < i && #[trigger] self@[j] == #[trigger] work@[k],
            decreases n - i,
        {
            let r = self.records[i];
            if r.node == peer {
                proof {
                    self.lemma_key_at(r.node, r.addr, i as int);
                }
                let ghost pre = work@;
                work.push(r);
                proof {
                    assert(work@ == pre.push(r));
                    assert forall|j: int|
                        0 <= j < i + 1 && (#[trigger] self@[j]).node == peer
                            implies work@.contains(self@[j]) by {
                        if j < i {
                            let k = choose|k: int| 0 <= k < pre.len() && pre[k] == self@[j];
                            assert(work@[k] == self@[j]);
                        } else {
                            assert(work@[pre.len() as int] == self@[j]);
                        }
                    }
                    assert forall|k1: int, k2: int|
                        0 <= k1 < k2 < work@.len() implies work@[k1].addr != work@[k2].addr by {
                        if k2 == pre.len() {
                            assert(work@[k1] == pre[k1]);
                            if work@[k1].addr == r.addr {
                                let j = choose|j: int|
                                    0 <= j < i && #[trigger] self@[j] == pre[k1];
                                assert(keyed(self@[j], peer, r.addr));
                                assert(keyed(self@[i as int], peer, r.addr));
                                assert(false);
                            }
                        }
                    }
                    assert forall|k: int| 0 <= k < work@.len() implies exists|j: int|
                        0 <= j < i + 1 && #[trigger] self@[j] == #[trigger] work@[k] by {
                        if k < pre.len() {
                            let j = choose|j: int| 0 <= j < i && #[trigger] self@[j] == pre[k];
                            assert(0 <= j < i + 1 && self@[j] == work@[k]);
                        } else {
                            assert(self@[i as int] == work@[k]);
                        }
                    }
                }
            }
            i = i + 1;
        }
        proof {
            assert forall|a: HostAddr|
                (#[trigger] self.lookup(peer, a)) is Some implies work@.contains(
                self.lookup(peer, a).unwrap(),
            ) by {
                if self.contains_key(peer, a) {
                    let j = seq_index_of(self@, peer, a);
                    assert(keyed(self@[j], peer, a));
                }
            }
        }
        // Selection sort: repeatedly move the best-ranked remaining record.
        let mut res: Vec<KnownAddress> = Vec::new();
        while work.len() > 0
            invariant
                self.wf(),
                forall|k: int|
                    0 <= k < work@.len() ==> self.lookup(peer, (#[trigger] work@[k]).addr)
                        == Some(work@[k]) && work@[k].node == peer,
                forall|k: int|
                    0 <= k < res@.len() ==> self.lookup(peer, (#[trigger] res@[k]).addr) == Some(
                        res@[k],
                    ) && res@[k].node == peer,
                forall|a: HostAddr|
                    (#[trigger] self.lookup(peer, a)) is Some ==> res@.contains(
                        self.lookup(peer, a).unwrap(),
                    ) || work@.contains(self.lookup(peer, a).unwrap()),
                forall|k1: int, k2: int|
                    0 <= k1 < k2 < work@.len() ==> work@[k1].addr != work@[k2].addr,
                forall|k1: int, k2: int|
                    0 <= k1 < k2 < res@.len() ==> res@[k1].addr != res@[k2].addr,
                forall|k1: int, k2: int|
                    0 <= k1 < res@.len() && 0 <= k2 < work@.len() ==> (#[trigger] res@[k1]).addr
                        != (#[trigger] work@[k2]).addr,
                forall|k1: int, k2: int|
                    0 <= k1 <= k2 < res@.len() ==> ranks_before(res@[k1], res@[k2]),
                forall|k1: int, k2: int|
                    0 <= k1 < res@.len() && 0 <= k2 < work@.len() ==> ranks_before(
                        #[trigger] res@[k1],
                        #[trigger] work@[k2],
                    ),
            decreases work@.len(),
        {
            let mut best: usize = 0;
            let mut j: usize = 1;
            while j < work.len()
                invariant
                    work@.len() > 0,
                    best < j <= work@.len(),
                    forall|k: int| 0 <= k < j ==> ranks_before(work@[best as int], #[trigger] work@[k]),
                decreases work@.len() - j,
            {
                let a = &work[j];
                let b = &work[best];
                let better = match (a.last_success, b.last_success) {
                    (Some(ta), Some(tb)) => ta > tb || (ta == tb && a.last_seen > b.last_seen),
                    (Some(_), Option::None) => true,
                    (Option::None, Some(_)) => false,
                    (Option::None, Option::None) => a.last_seen > b.last_seen,
                };
                if better {
                    best = j;
                }
                j = j + 1;
            }
            let ghost oldwork = work@;
            let ghost preres = res@;
            let ghost b = best as int;
            let picked = work.remove(best);
            res.push(picked);
            proof {
                assert(picked == oldwork[b]);
                assert(work@ == oldwork.remove(b));
                assert(res@ == preres.push(picked));
                let m = preres.len() as int;
                assert forall|k: int| 0 <= k < work@.len() implies work@[k] == if k < b {
                    oldwork[k]
                } else {
                    oldwork[k + 1]
                } by {}
                assert forall|k: int|
                    0 <= k < work@.len() implies self.lookup(peer, (#[trigger] work@[k]).addr)
                    == Some(work@[k]) && work@[k].node == peer by {
                    let k0 = if k < b { k } else { k + 1 };
                    assert(work@[k] == oldwork[k0]);
                }
                assert forall|k1: int, k2: int|
                    0 <= k1 < k2 < work@.len() implies work@[k1].addr != work@[k2].addr by {
                    let k10 = if k1 < b { k1 } else { k1 + 1 };
                    let k20 = if k2 < b { k2 } else { k2 + 1 };
                    assert(work@[k1] == oldwork[k10] && work@[k2] == oldwork[k20]);
                }
                assert forall|k1: int, k2: int|
                    0 <= k1 < res@.len() && 0 <= k2 < work@.len() implies (#[trigger] res@[k1]).addr
                    != (#[trigger] work@[k2]).addr by {
                    let k20 = if k2 < b { k2 } else { k2 + 1 };
                    assert(work@[k2] == oldwork[k20]);
                    if k1 < m {
                        assert(res@[k1] == preres[k1]);
                    } else {
                        assert(res@[k1] == oldwork[b] && k20 != b);
                    }
                }
                assert forall|k1: int, k2: int|
                    0 <= k1 <= k2 < res@.len() implies ranks_before(res@[k1], res@[k2]) by {
                    if k2 < m {
                        assert(res@[k1] == preres[k1] && res@[k2] == preres[k2]);
                    } else if k1 < m {
                        assert(ranks_before(preres[k1], oldwork[b]));
                    } else {
                        assert(res@[k1] == oldwork[b] && res@[k2] == oldwork[b]);
                    }
                }
                assert forall|k1: int, k2: int|
                    0 <= k1 < res@.len() && 0 <= k2 < work@.len() implies ranks_before(
                    #[trigger] res@[k1],
                    #[trigger] work@[k2],
                ) by {
                    let k20 = if k2 < b { k2 } else { k2 + 1 };
                    assert(work@[k2] == oldwork[k20]);
                    if k1 < m {
                        assert(ranks_before(preres[k1], oldwork[k20]));
                    } else {
                        assert(res@[k1] == oldwork[b]);
                        assert(ranks_before(oldwork[b], oldwork[k20]));
                    }
                }
                assert forall|a: HostAddr|
                    (#[trigger] self.lookup(peer, a)) is Some implies res@.contains(
                    self.lookup(peer, a).unwrap(),
                ) || work@.contains(self.lookup(peer, a).unwrap()) by {
                    match self.lookup(peer, a) {
                        Some(rec) => {
                            if preres.contains(rec) {
                                let k = choose|k: int| 0 <= k < preres.len() && preres[k] == rec;
                                assert(res@[k] == rec);
                            } else {
                                let k0 = choose|k0: int|
                                    0 <= k0 < oldwork.len() && oldwork[k0] == rec;
                                if k0 == b {
                                    assert(res@[m] == rec);
                                } else if k0 < b {
                                    assert(work@[k0] == rec);
                                } else {
                                    assert(work@[k0 - 1] == rec);
                                }
                            }
                        },
                        Option::None => {},
                    }
                }
            }
        }
        res
    }
}

/// Law: upserting an address record is idempotent. Re-inserting a record
/// with identical fields leaves the book — and so `addresses_for` and its
/// length — exactly as after the first insert.
pub proof fn lemma_upsert_idempotent(s: Seq<KnownAddress>, rec: KnownAddress)
    requires
        seq_wf(s),
    ensures
        spec_upsert(spec_upsert(s, rec), rec) == spec_upsert(s, rec),
{
    let s1 = spec_upsert(s, rec);
    if seq_has_key(s, rec.node, rec.addr) {
        let i = seq_index_of(s, rec.node, rec.addr);
        assert(0 <= i < s.len() && keyed(s[i], rec.node, rec.addr));
        assert(s1 == s.update(i, rec));
        assert(keyed(s1[i], rec.node, rec.addr));
        assert(seq_has_key(s1, rec.node, rec.addr));
        let j = seq_index_of(s1, rec.node, rec.addr);
        assert(0 <= j < s1.len() && keyed(s1[j], rec.node, rec.addr));
        if j != i {
            assert(keyed(s[j], rec.node, rec.addr));
            assert(false);
        }
        assert(spec_upsert(s1, rec) == s1.update(i, rec));
        assert(s1.update(i, rec) =~= s1);
    } else {
        let m = s.len() as int;
        assert(s1 == s.push(rec));
        assert(keyed(s1[m], rec.node, rec.addr));
        assert(seq_has_key(s1, rec.node, rec.addr));
        let j = seq_index_of(s1, rec.node, rec.addr);
        assert(0 <= j < s1.len() && keyed(s1[j], rec.node, rec.addr));
        if j != m {
            assert(s1[j] == s[j]);
            assert(false);
        }
        assert(spec_upsert(s1, rec) == s1.update(m, rec));
        assert(s1.update(m, rec) =~= s1);
    }
}

} // verus!
