//! The peer routing table.
//!
//! The table stores claims "`provider` hosts `resource`", each refreshed at a
//! timestamp. The (resource, provider) pair is a unique key; a newer
//! announcement supersedes the stored claim, an older or equally old one is
//! ignored, so the stored timestamp is the maximum ever seen for the pair and
//! the arrival order of announcements cannot affect it. Reads filter entries
//! whose time-to-live has elapsed, whether or not [`Table::prune`] has run.

use vstd::prelude::*;
use vstd::pervasive::VecAdditionalExecFns;
use crate::clock::expired;
use crate::ids::{NodeId, ResourceId};

verus! {

/// Error validating the persisted routing entries on open.
#[derive(PartialEq, Eq, Structural, Clone, Copy, Debug)]
pub enum Error {
    /// The persisted entries hold two claims for one (resource, provider) pair.
    Corrupt,
}

/// A stored claim "`provider` hosts `resource`", refreshed at `timestamp`.
#[derive(PartialEq, Eq, Structural, Clone, Copy, Debug)]
pub struct Entry {
    pub resource: ResourceId,
    pub provider: NodeId,
    pub timestamp: u64,
}

/// True when `e` is the claim for the pair `(r, p)`.
pub open spec fn keyed(e: Entry, r: ResourceId, p: NodeId) -> bool {
    e.resource == r && e.provider == p
}

/// True when the announcement timestamp `t` supersedes the stored claim
/// `prev`: there is none, or `t` is strictly newer. On equal timestamps the
/// stored claim is retained, so re-announcing is a no-op.
pub open spec fn wins(prev: Option<u64>, t: u64) -> bool {
    match prev {
        Option::None => true,
        Option::Some(pt) => t > pt,
    }
}

/// The timestamp stored after an announcement at `t` meets the stored claim
/// `prev`: the larger of the two.
pub open spec fn merged(prev: Option<u64>, t: u64) -> u64 {
    match prev {
        Option::None => t,
        Option::Some(pt) => if t > pt { t } else { pt },
    }
}

/// The stored timestamp for a pair after a sequence of announcements for that
/// pair has been absorbed, one [`merged`] step per announcement.
/// [`Table::insert`] guarantees exactly one such step.
pub open spec fn absorb(prev: Option<u64>, times: Seq<u64>) -> Option<u64>
    decreases times.len(),
{
    if times.len() == 0 {
        prev
    } else {
        absorb(Some(merged(prev, times[0])), times.drop_first())
    }
}

/// The routing table: the set of non-superseded hosting claims.
pub struct Table {
    entries: Vec<Entry>,
}

impl View for Table {
    type V = Seq<Entry>;

    closed spec fn view(&self) -> Seq<Entry> {
        self.entries@
    }
}

impl Table {
    /// Well-formed: one claim per (resource, provider) pair.
    pub open spec fn wf(self) -> bool {
        forall|i: int, j: int|
            0 <= i < self@.len() && 0 <= j < self@.len() && i != j ==> !((#[trigger] self@[i]).resource
                == (#[trigger] self@[j]).resource && self@[i].provider == self@[j].provider)
    }

    /// Some claim for `(r, p)` is stored.
    pub open spec fn contains_key(self, r: ResourceId, p: NodeId) -> bool {
        exists|i: int| 0 <= i < self@.len() && keyed(#[trigger] self@[i], r, p)
    }

    /// The position of the claim for `(r, p)`, unique in a well-formed table.
    pub open spec fn index_of(self, r: ResourceId, p: NodeId) -> int {
        choose|i: int| 0 <= i < self@.len() && keyed(#[trigger] self@[i], r, p)
    }

    /// The stored timestamp of the claim for `(r, p)`, if any: the table's
    /// mathematical content, which every contract below speaks of.
    pub open spec fn lookup(self, r: ResourceId, p: NodeId) -> Option<u64> {
        if self.contains_key(r, p) {
            Some(self@[self.index_of(r, p)].timestamp)
        } else {
            Option::None
        }
    }

    /// In a well-formed table, a claim found at `i` is the claim for its pair.
    pub proof fn lemma_key_at(self, r: ResourceId, p: NodeId, i: int)
        requires
            self.wf(),
            0 <= i < self@.len(),
            keyed(self@[i], r, p),
        ensures
            self.contains_key(r, p),
            self.index_of(r, p) == i,
            self.lookup(r, p) == Some(self@[i].timestamp),
    {
        assert(self.contains_key(r, p));
        let j = self.index_of(r, p);
        assert(0 <= j < self@.len() && keyed(self@[j], r, p));
        if j != i {
            assert(false);
        }
    }

    /// An empty table.
    pub fn new() -> (t: Table)
        ensures
            t.wf(),
            t@ =~= Seq::<Entry>::empty(),
            forall|r: ResourceId, p: NodeId| t.lookup(r, p) is None,
    {
        let t = Table { entries: Vec::new() };
        proof {
            assert forall|r: ResourceId, p: NodeId| t.lookup(r, p) is None by {
                assert(!t.contains_key(r, p));
            }
        }
        t
    }

    /// Rebuild a table from persisted entries, refusing a corrupt store that
    /// holds two claims for one pair.
    pub fn open_from(entries: Vec<Entry>) -> (r: Result<Table, Error>)
        ensures
            match r {
                Ok(t) => t.wf() && t@ == entries@,
                Err(e) => e == Error::Corrupt && exists|i: int, j: int|
                    0 <= i < j < entries@.len() && (#[trigger] entries@[i]).resource
                        == (#[trigger] entries@[j]).resource && entries@[i].provider
                        == entries@[j].provider,
            },
    {
        let mut t = Table { entries: Vec::new() };
        let n = entries.len();
        let mut i: usize = 0;
        while i < n
            invariant
                n == entries@.len(),
                i <= n,
                t.wf(),
                t@ == entries@.take(i as int),
            decreases n - i,
        {
            let e = entries[i];
            let found = t.find(e.resource, e.provider);
            if found.is_some() {
                proof {
                    let k = t.index_of(e.resource, e.provider);
                    assert(entries@.take(i as int)[k] == entries@[k]);
                    assert(entries@[k].resource == entries@[i as int].resource
                        && entries@[k].provider == entries@[i as int].provider);
                }
                return Err(Error::Corrupt);
            }
            t.entries.push(e);
            proof {
                assert(t@ =~= entries@.take(i as int + 1));
                assert forall|a: int, b: int|
                    0 <= a < t@.len() && 0 <= b < t@.len() && a != b implies !((#[trigger] t@[a]).resource
                        == (#[trigger] t@[b]).resource && t@[a].provider == t@[b].provider) by {
                    if a == t@.len() - 1 || b == t@.len() - 1 {
                        let other = if a == t@.len() - 1 { b } else { a };
                        assert(no_claim_for(entries@.take(i as int), e.resource, e.provider));
                    }
                }
            }
            i = i + 1;
        }
        proof {
            assert(t@ =~= entries@);
        }
        Ok(t)
    }

    /// The stored entries, for persistence at shutdown.
    pub fn entries(&self) -> (r: &Vec<Entry>)
        ensures
            r@ == self@,
    {
        &self.entries
    }

    /// The position of the claim for `(resource, provider)`, if one is stored.
    fn find(&self, resource: ResourceId, provider: NodeId) -> (r: Option<usize>)
        requires
            self.wf(),
        ensures
            match r {
                Some(i) => i < self@.len() && keyed(self@[i as int], resource, provider)
                    && self.contains_key(resource, provider)
                    && self.index_of(resource, provider) == i,
                Option::None => !self.contains_key(resource, provider),
            },
    {
        let n = self.entries.len();
        let mut i: usize = 0;
        while i < n
            invariant
                n == self@.len(),
                i <= n,
                self.wf(),
                forall|j: int| 0 <= j < i ==> !keyed(#[trigger] self@[j], resource, provider),
            decreases n - i,
        {
            let e = &self.entries[i];
            if e.resource == resource && e.provider == provider {
                proof {
                    self.lemma_key_at(resource, provider, i as int);
                }
                return Some(i);
            }
            i = i + 1;
        }
        Option::None
    }

    /// Absorb the announcement "`provider` hosts `resource`, as of
    /// `timestamp`". The stored timestamp for the pair becomes the larger of
    /// the old and the new one — one [`merged`] step — and no other pair
    /// changes, so absorbing a sequence of announcements stores
    /// [`absorb`] of their timestamps whatever order they arrive in.
    /// Returns whether the announcement superseded the stored claim.
    pub fn insert(&mut self, resource: ResourceId, provider: NodeId, timestamp: u64) -> (updated:
        bool)
        requires
            old(self).wf(),
        ensures
            final(self).wf(),
            final(self).lookup(resource, provider) == Some(
                merged(old(self).lookup(resource, provider), timestamp),
            ),
            forall|r: ResourceId, p: NodeId|
                !(r == resource && p == provider) ==> final(self).lookup(r, p) == old(self).lookup(
                    r,
                    p,
                ),
            updated == wins(old(self).lookup(resource, provider), timestamp),
            final(self)@.len() == old(self)@.len() + if old(self).contains_key(
                resource,
                provider,
            ) {
                0int
            } else {
                1int
            },
    {
        let found = self.find(resource, provider);
        match found {
            Some(i) => {
                let prev = self.entries[i].timestamp;
                if timestamp > prev {
                    self.entries.set(i, Entry { resource, provider, timestamp });
                    proof {
                        self.lemma_update_frame(*old(self), i as int, resource, provider);
                    }
                    true
                } else {
                    false
                }
            },
            Option::None => {
                self.entries.push(Entry { resource, provider, timestamp });
                proof {
                    let n = old(self)@.len();
                    assert(self@ == old(self)@.push(
                        Entry { resource, provider, timestamp },
                    ));
                    assert forall|a: int, b: int|
                        0 <= a < self@.len() && 0 <= b < self@.len() && a != b implies !((
                    #[trigger] self@[a]).resource == (#[trigger] self@[b]).resource
                        && self@[a].provider == self@[b].provider) by {
                        if a == n || b == n {
                            let other = if a == n { b } else { a };
                            assert(self@[other] == old(self)@[other]);
                        } else {
                            assert(self@[a] == old(self)@[a] && self@[b] == old(self)@[b]);
                        }
                    }
                    self.lemma_key_at(resource, provider, n as int);
                    assert forall|r: ResourceId, p: NodeId|
                        !(r == resource && p == provider) implies self.lookup(r, p) == old(
                        self,
                    ).lookup(r, p) by {
                        self.lemma_push_frame(*old(self), r, p, resource, provider);
                    }
                }
                true
            },
        }
    }

    /// After replacing the claim at `i` by one with the same pair, every
    /// lookup is what the replacement dictates.
    proof fn lemma_update_frame(self, prev: Table, i: int, resource: ResourceId, p0: NodeId)
        requires
            prev.wf(),
            0 <= i < prev@.len(),
            self@.len() == prev@.len(),
            keyed(prev@[i], resource, p0),
            keyed(self@[i], resource, p0),
            forall|j: int| 0 <= j < prev@.len() && j != i ==> self@[j] == prev@[j],
        ensures
            self.wf(),
            self.contains_key(resource, p0),
            self.index_of(resource, p0) == i,
            self.lookup(resource, p0) == Some(self@[i].timestamp),
            forall|r: ResourceId, p: NodeId|
                !(r == resource && p == p0) ==> self.lookup(r, p) == prev.lookup(r, p),
    {
        assert forall|a: int, b: int|
            0 <= a < self@.len() && 0 <= b < self@.len() && a != b implies !((#[trigger] self@[a]).resource
            == (#[trigger] self@[b]).resource && self@[a].provider == self@[b].provider) by {
            assert(self@[a].resource == prev@[a].resource && self@[a].provider == prev@[a].provider);
            assert(self@[b].resource == prev@[b].resource && self@[b].provider == prev@[b].provider);
        }
        self.lemma_key_at(resource, p0, i);
        assert forall|r: ResourceId, p: NodeId|
            !(r == resource && p == p0) implies self.lookup(r, p) == prev.lookup(r, p) by {
            if prev.contains_key(r, p) {
                let j = prev.index_of(r, p);
                assert(keyed(prev@[j], r, p));
                assert(j != i);
                prev.lemma_key_at(r, p, j);
                self.lemma_key_at(r, p, j);
            } else {
                if self.contains_key(r, p) {
                    let j = self.index_of(r, p);
                    assert(keyed(self@[j], r, p));
                    assert(j != i);
                    assert(keyed(prev@[j], r, p));
                }
            }
        }
    }

    /// Appending a claim for a fresh pair leaves every other lookup as it was.
    proof fn lemma_push_frame(self, prev: Table, r: ResourceId, p: NodeId, nr: ResourceId, np: NodeId)
        requires
            prev.wf(),
            self.wf(),
            self@.len() == prev@.len() + 1,
            forall|j: int| 0 <= j < prev@.len() ==> self@[j] == prev@[j],
            keyed(self@[prev@.len() as int], nr, np),
            !(r == nr && p == np),
        ensures
            self.lookup(r, p) == prev.lookup(r, p),
    {
        let n = prev@.len() as int;
        if prev.contains_key(r, p) {
            let j = prev.index_of(r, p);
            assert(keyed(prev@[j], r, p));
            prev.lemma_key_at(r, p, j);
            self.lemma_key_at(r, p, j);
        } else {
            if self.contains_key(r, p) {
                let j = self.index_of(r, p);
                assert(keyed(self@[j], r, p));
                assert(j != n);
                assert(keyed(prev@[j], r, p));
            }
        }
    }

    /// Drop the claim for `(resource, provider)`, if one is stored. Returns
    /// whether one was.
    pub fn remove(&mut self, resource: ResourceId, provider: NodeId) -> (removed: bool)
        requires
            old(self).wf(),
        ensures
            final(self).wf(),
            final(self).lookup(resource, provider) is None,
            forall|r: ResourceId, p: NodeId|
                !(r == resource && p == provider) ==> final(self).lookup(r, p) == old(self).lookup(
                    r,
                    p,
                ),
            removed == old(self).contains_key(resource, provider),
    {
        let found = self.find(resource, provider);
        match found {
            Some(i) => {
                self.entries.remove(i);
                proof {
                    let n = self@.len() as int;
                    assert(self@ == old(self)@.remove(i as int));
                    assert forall|j: int| 0 <= j < n implies self@[j] == if j < i as int {
                        old(self)@[j]
                    } else {
                        old(self)@[j + 1]
                    } by {}
                    assert forall|a: int, b: int|
                        0 <= a < n && 0 <= b < n && a != b implies !((#[trigger] self@[a]).resource
                        == (#[trigger] self@[b]).resource && self@[a].provider
                        == self@[b].provider) by {
                        let a0 = if a < i as int { a } else { a + 1 };
                        let b0 = if b < i as int { b } else { b + 1 };
                        assert(self@[a] == old(self)@[a0] && self@[b] == old(self)@[b0]);
                    }
                    if self.contains_key(resource, provider) {
                        let j = self.index_of(resource, provider);
                        assert(keyed(self@[j], resource, provider));
                        let j0 = if j < i as int { j } else { j + 1 };
                        assert(keyed(old(self)@[j0], resource, provider));
                        assert(j0 != i as int);
                        assert(false);
                    }
                    assert forall|r: ResourceId, p: NodeId|
                        !(r == resource && p == provider) implies self.lookup(r, p) == old(
                        self,
                    ).lookup(r, p) by {
                        if old(self).contains_key(r, p) {
                            let j0 = old(self).index_of(r, p);
                            assert(keyed(old(self)@[j0], r, p));
                            old(self).lemma_key_at(r, p, j0);
                            assert(j0 != i as int);
                            let j = if j0 < i as int { j0 } else { j0 - 1 };
                            assert(self@[j] == old(self)@[j0]);
                            self.lemma_key_at(r, p, j);
                        } else {
                            if self.contains_key(r, p) {
                                let j = self.index_of(r, p);
                                assert(keyed(self@[j], r, p));
                                let j0 = if j < i as int { j } else { j + 1 };
                                assert(keyed(old(self)@[j0], r, p));
                            }
                        }
                    }
                }
                true
            },
            Option::None => {
                false
            },
        }
    }

    /// The providers of `resource` whose claims have not expired: the basis
    /// for resource discovery. Expiry is enforced here, at read time, whether
    /// or not [`Table::prune`] has run: no returned provider's claim has
    /// `timestamp + ttl` before `now`.
    pub fn providers_of(&self, resource: ResourceId, now: u64, ttl: u64) -> (provs: Vec<NodeId>)
        requires
            self.wf(),
        ensures
            forall|k: int|
                0 <= k < provs@.len() ==> {
                    let found = self.lookup(resource, #[trigger] provs@[k]);
                    found is Some && !expired(found.unwrap(), now, ttl)
                },
            forall|p: NodeId|
                (#[trigger] self.lookup(resource, p)) matches Some(ts) && !expired(ts, now, ttl)
                    ==> provs@.contains(p),
            forall|k1: int, k2: int|
                0 <= k1 < k2 < provs@.len() ==> provs@[k1] != provs@[k2],
    {
        let n = self.entries.len();
        let mut provs: Vec<NodeId> = Vec::new();
        let mut i: usize = 0;
        while i < n
            invariant
                n == self@.len(),
                i <= n,
                self.wf(),
                forall|k: int|
                    0 <= k < provs@.len() ==> {
                        let found = self.lookup(resource, #[trigger] provs@[k]);
                        found is Some && !expired(found.unwrap(), now, ttl)
                    },
                forall|j: int|
                    0 <= j < i && (#[trigger] self@[j]).resource == resource && !expired(
                        self@[j].timestamp,
                        now,
                        ttl,
                    ) ==> provs@.contains(self@[j].provider),
                forall|k: int|
                    0 <= k < provs@.len() ==> exists|j: int|
                        0 <= j < i && keyed(#[trigger] self@[j], resource, #[trigger] provs@[k]),
                forall|k1: int, k2: int|
                    0 <= k1 < k2 < provs@.len() ==> provs@[k1] != provs@[k2],
            decreases n - i,
        {
            let e = self.entries[i];
            let fresh = now <= ttl || e.timestamp >= now - ttl;
            proof {
                assert(fresh == !expired(e.timestamp, now, ttl));
            }
            if e.resource == resource && fresh {
                proof {
                    self.lemma_key_at(resource, e.provider, i as int);
                    if provs@.contains(e.provider) {
                        let k = choose|k: int| 0 <= k < provs@.len() && provs@[k] == e.provider;
                        let j = choose|j: int|
                            0 <= j < i && keyed(#[trigger] self@[j], resource, provs@[k]);
                        assert(keyed(self@[j], resource, e.provider));
                        assert(false);
                    }
                }
                let ghost pre = provs@;
                provs.push(e.provider);
                proof {
                    assert(provs@ == pre.push(e.provider));
                    assert forall|j: int|
                        0 <= j < i + 1 && (#[trigger] self@[j]).resource == resource && !expired(
                            self@[j].timestamp,
                            now,
                            ttl,
                        ) implies provs@.contains(self@[j].provider) by {
                        if j < i {
                            let k = choose|k: int|
                                0 <= k < pre.len() && pre[k] == self@[j].provider;
                            assert(provs@[k] == self@[j].provider);
                        } else {
                            assert(provs@[pre.len() as int] == e.provider);
                        }
                    }
                    assert forall|k: int| 0 <= k < provs@.len() implies exists|j: int|
                        0 <= j < i + 1 && keyed(#[trigger] self@[j], resource, #[trigger] provs@[k]) by {
                        if k < pre.len() {
                            let j = choose|j: int|
                                0 <= j < i && keyed(#[trigger] self@[j], resource, pre[k]);
                            assert(0 <= j < i + 1 && keyed(self@[j], resource, provs@[k]));
                        } else {
                            assert(keyed(self@[i as int], resource, provs@[k]));
                        }
                    }
                    assert forall|k1: int, k2: int|
                        0 <= k1 < k2 < provs@.len() implies provs@[k1] != provs@[k2] by {
                        if k2 == pre.len() {
                            assert(!pre.contains(e.provider));
                            assert(provs@[k1] == pre[k1]);
                        }
                    }
                }
            }
            i = i + 1;
        }
        proof {
            assert forall|p: NodeId|
                (#[trigger] self.lookup(resource, p)) matches Some(ts) && !expired(ts, now, ttl)
                    implies provs@.contains(p) by {
                if self.contains_key(resource, p) {
                    let j = self.index_of(resource, p);
                    assert(keyed(self@[j], resource, p));
                }
            }
        }
        provs
    }

    /// The resources `provider` claims to host, claim age disregarded.
    pub fn resources_of(&self, provider: NodeId) -> (res: Vec<ResourceId>)
        requires
            self.wf(),
        ensures
            forall|k: int|
                0 <= k < res@.len() ==> self.lookup(#[trigger] res@[k], provider) is Some,
            forall|r: ResourceId| self.lookup(r, provider) is Some ==> res@.contains(r),
            forall|k1: int, k2: int| 0 <= k1 < k2 < res@.len() ==> res@[k1] != res@[k2],
    {
        let n = self.entries.len();
        let mut res: Vec<ResourceId> = Vec::new();
        let mut i: usize = 0;
        while i < n
            invariant
                n == self@.len(),
                i <= n,
                self.wf(),
                forall|k: int|
                    0 <= k < res@.len() ==> self.lookup(#[trigger] res@[k], provider) is Some,
                forall|j: int|
                    0 <= j < i && (#[trigger] self@[j]).provider == provider ==> res@.contains(
                        self@[j].resource,
                    ),
                forall|k: int|
                    0 <= k < res@.len() ==> exists|j: int|
                        0 <= j < i && keyed(#[trigger] self@[j], #[trigger] res@[k], provider),
                forall|k1: int, k2: int| 0 <= k1 < k2 < res@.len() ==> res@[k1] != res@[k2],
            decreases n - i,
        {
            let e = self.entries[i];
            if e.provider == provider {
                proof {
                    self.lemma_key_at(e.resource, provider, i as int);
                    if res@.contains(e.resource) {
                        let k = choose|k: int| 0 <= k < res@.len() && res@[k] == e.resource;
                        let j = choose|j: int|
                            0 <= j < i && keyed(#[trigger] self@[j], res@[k], provider);
                        assert(keyed(self@[j], e.resource, provider));
                        assert(false);
                    }
                }
                let ghost pre = res@;
                res.push(e.resource);
                proof {
                    assert(res@ == pre.push(e.resource));
                    assert forall|j: int|
                        0 <= j < i + 1 && (#[trigger] self@[j]).provider == provider
                            implies res@.contains(self@[j].resource) by {
                        if j < i {
                            let k = choose|k: int|
                                0 <= k < pre.len() && pre[k] == self@[j].resource;
                            assert(res@[k] == self@[j].resource);
                        } else {
                            assert(res@[pre.len() as int] == e.resource);
                        }
                    }
                    assert forall|k: int| 0 <= k < res@.len() implies exists|j: int|
                        0 <= j < i + 1 && keyed(#[trigger] self@[j], #[trigger] res@[k], provider) by {
                        if k < pre.len() {
                            let j = choose|j: int|
                                0 <= j < i && keyed(#[trigger] self@[j], pre[k], provider);
                            assert(0 <= j < i + 1 && keyed(self@[j], res@[k], provider));
                        } else {
                            assert(keyed(self@[i as int], res@[k], provider));
                        }
                    }
                    assert forall|k1: int, k2: int|
                        0 <= k1 < k2 < res@.len() implies res@[k1] != res@[k2] by {
                        if k2 == pre.len() {
                            assert(!pre.contains(e.resource));
                            assert(res@[k1] == pre[k1]);
                        }
                    }
                }
            }
            i = i + 1;
        }
        proof {
            assert forall|r: ResourceId| self.lookup(r, provider) is Some implies res@.contains(r) by {
                if self.contains_key(r, provider) {
                    let j = self.index_of(r, provider);
                    assert(keyed(self@[j], r, provider));
                }
            }
        }
        res
    }

    /// Drop every expired claim. After pruning, a pair's claim is stored
    /// exactly when it was stored and had not expired.
    pub fn prune(&mut self, now: u64, ttl: u64)
        requires
            old(self).wf(),
        ensures
            final(self).wf(),
            forall|r: ResourceId, p: NodeId|
                final(self).lookup(r, p) == match old(self).lookup(r, p) {
                    Some(ts) => if expired(ts, now, ttl) {
                        Option::<u64>::None
                    } else {
                        Some(ts)
                    },
                    Option::None => Option::<u64>::None,
                },
    {
        let n = self.entries.len();
        let mut kept = Table { entries: Vec::new() };
        let mut i: usize = 0;
        while i < n
            invariant
                n == self@.len(),
                i <= n,
                self.wf(),
                kept.wf(),
                forall|k: int|
                    0 <= k < kept@.len() ==> {
                        let e = #[trigger] kept@[k];
                        self.lookup(e.resource, e.provider) == Some(e.timestamp) && !expired(
                            e.timestamp,
                            now,
                            ttl,
                        )
                    },
                forall|j: int|
                    0 <= j < i && !expired((#[trigger] self@[j]).timestamp, now, ttl)
                        ==> kept.contains_key(self@[j].resource, self@[j].provider),
                forall|k: int|
                    0 <= k < kept@.len() ==> exists|j: int|
                        0 <= j < i && #[trigger] self@[j] == #[trigger] kept@[k],
            decreases n - i,
        {
            let e = self.entries[i];
            let fresh = now <= ttl || e.timestamp >= now - ttl;
            proof {
                assert(fresh == !expired(e.timestamp, now, ttl));
            }
            if fresh {
                proof {
                    self.lemma_key_at(e.resource, e.provider, i as int);
                    if kept.contains_key(e.resource, e.provider) {
                        let k = kept.index_of(e.resource, e.provider);
                        assert(keyed(kept@[k], e.resource, e.provider));
                        let j = choose|j: int| 0 <= j < i && #[trigger] self@[j] == kept@[k];
                        assert(keyed(self@[j], e.resource, e.provider));
                        assert(false);
                    }
                }
                let ghost pre = kept;
                kept.entries.push(e);
                proof {
                    let m = pre@.len() as int;
                    assert(kept@ == pre@.push(e));
                    assert forall|a: int, b: int|
                        0 <= a < kept@.len() && 0 <= b < kept@.len() && a != b implies !((
                    #[trigger] kept@[a]).resource == (#[trigger] kept@[b]).resource
                        && kept@[a].provider == kept@[b].provider) by {
                        if a == m || b == m {
                            let other = if a == m { b } else { a };
                            assert(kept@[other] == pre@[other]);
                            assert(!pre.contains_key(e.resource, e.provider));
                        } else {
                            assert(kept@[a] == pre@[a] && kept@[b] == pre@[b]);
                        }
                    }
                    assert forall|j: int|
                        0 <= j < i + 1 && !expired((#[trigger] self@[j]).timestamp, now, ttl)
                            implies kept.contains_key(self@[j].resource, self@[j].provider) by {
                        if j < i {
                            let k = pre.index_of(self@[j].resource, self@[j].provider);
                            assert(keyed(pre@[k], self@[j].resource, self@[j].provider));
                            assert(keyed(kept@[k], self@[j].resource, self@[j].provider));
                        } else {
                            assert(keyed(kept@[m], self@[j].resource, self@[j].provider));
                        }
                    }
                    assert forall|k: int| 0 <= k < kept@.len() implies exists|j: int|
                        0 <= j < i + 1 && #[trigger] self@[j] == #[trigger] kept@[k] by {
                        if k < m {
                            let j = choose|j: int| 0 <= j < i && #[trigger] self@[j] == pre@[k];
                            assert(0 <= j < i + 1 && self@[j] == kept@[k]);
                        } else {
                            assert(self@[i as int] == kept@[k]);
                        }
                    }
                }
            }
            i = i + 1;
        }
        proof {
            assert forall|r: ResourceId, p: NodeId|
                kept.lookup(r, p) == match old(self).lookup(r, p) {
                    Some(ts) => if expired(ts, now, ttl) {
                        Option::<u64>::None
                    } else {
                        Some(ts)
                    },
                    Option::None => Option::<u64>::None,
                } by {
                if old(self).contains_key(r, p) {
                    let j = old(self).index_of(r, p);
                    assert(keyed(old(self)@[j], r, p));
                    old(self).lemma_key_at(r, p, j);
                    if !expired(old(self)@[j].timestamp, now, ttl) {
                        let k = kept.index_of(r, p);
                        assert(keyed(kept@[k], r, p));
                        kept.lemma_key_at(r, p, k);
                    } else {
                        if kept.contains_key(r, p) {
                            let k = kept.index_of(r, p);
                            assert(keyed(kept@[k], r, p));
                            kept.lemma_key_at(r, p, k);
                        }
                    }
                } else {
                    if kept.contains_key(r, p) {
                        let k = kept.index_of(r, p);
                        assert(keyed(kept@[k], r, p));
                    }
                }
            }
        }
        self.entries = kept.entries;
    }
}

/// No claim for the pair `(r, p)` stands anywhere in `s`.
pub open spec fn no_claim_for(s: Seq<Entry>, r: ResourceId, p: NodeId) -> bool {
    forall|i: int| 0 <= i < s.len() ==> !keyed(#[trigger] s[i], r, p)
}

/// A single announcement is one [`merged`] step: exactly what
/// [`Table::insert`] guarantees of the stored timestamp, so a run of
/// inserts for one pair stores [`absorb`] of the announced timestamps.
pub proof fn lemma_absorb_step(prev: Option<u64>, t: u64)
    ensures
        absorb(prev, seq![t]) == Some(merged(prev, t)),
{
    assert(seq![t].len() == 1);
    assert(seq![t][0] == t);
    assert(seq![t].drop_first().len() == 0);
    assert(absorb(prev, seq![t]) == absorb(Some(merged(prev, t)), seq![t].drop_first()));
}

/// Law: absorbing announcements stores the maximum timestamp seen.
/// For a non-empty sequence of announcements for one pair, the stored
/// timestamp after [`absorb`] is an upper bound of every announced timestamp
/// and of the initial claim, and is itself one of them.
pub proof fn lemma_absorb_is_max(prev: Option<u64>, times: Seq<u64>)
    requires
        times.len() > 0,
    ensures
        absorb(prev, times) is Some,
        forall|i: int| 0 <= i < times.len() ==> absorb(prev, times).unwrap() >= times[i],
        prev is Some ==> absorb(prev, times).unwrap() >= prev.unwrap(),
        times.contains(absorb(prev, times).unwrap()) || prev == Some(
            absorb(prev, times).unwrap(),
        ),
    decreases times.len(),
{
    let first = Some(merged(prev, times[0]));
    if times.len() == 1 {
        assert(absorb(prev, times) == absorb(first, times.drop_first()));
        assert(times.drop_first().len() == 0);
        assert(absorb(prev, times) == first);
        if merged(prev, times[0]) == times[0] {
            assert(times.contains(times[0]));
        }
    } else {
        lemma_absorb_is_max(first, times.drop_first());
        let m = absorb(first, times.drop_first()).unwrap();
        assert(absorb(prev, times) == absorb(first, times.drop_first()));
        assert forall|i: int| 0 <= i < times.len() implies m >= times[i] by {
            if i == 0 {
                assert(m >= merged(prev, times[0]));
            } else {
                assert(times.drop_first()[i - 1] == times[i]);
            }
        }
        if times.drop_first().contains(m) {
            let i = choose|i: int| 0 <= i < times.drop_first().len() && times.drop_first()[i] == m;
            assert(times[i + 1] == m);
            assert(times.contains(m));
        } else {
            assert(first == Some(m));
            if merged(prev, times[0]) == times[0] {
                assert(times.contains(times[0]));
            }
        }
    }
}

/// Law: the stored timestamp for a pair does not depend on the order its
/// announcements arrive in. Two arrival orders of the same announcements —
/// sequences equal as multisets — leave [`absorb`] equal.
pub proof fn lemma_absorb_order_irrelevant(prev: Option<u64>, a: Seq<u64>, b: Seq<u64>)
    requires
        a.to_multiset() == b.to_multiset(),
    ensures
        absorb(prev, a) == absorb(prev, b),
{
    broadcast use vstd::seq_lib::group_to_multiset_ensures;

    if a.len() == 0 {
        assert(a.to_multiset().len() == 0);
        assert(b.to_multiset().len() == b.len());
        assert(b.len() == 0);
    } else {
        assert(a.to_multiset().len() == a.len());
        assert(b.to_multiset().len() == b.len());
        assert(b.len() > 0);
        lemma_absorb_is_max(prev, a);
        lemma_absorb_is_max(prev, b);
        let ma = absorb(prev, a).unwrap();
        let mb = absorb(prev, b).unwrap();
        assert(ma >= mb) by {
            if b.contains(mb) {
                assert(b.to_multiset().count(mb) > 0);
                assert(a.to_multiset().count(mb) > 0);
                assert(a.contains(mb));
                let i = choose|i: int| 0 <= i < a.len() && a[i] == mb;
                assert(ma >= a[i]);
            }
        }
        assert(mb >= ma) by {
            if a.contains(ma) {
                assert(a.to_multiset().count(ma) > 0);
                assert(b.to_multiset().count(ma) > 0);
                assert(b.contains(ma));
                let i = choose|i: int| 0 <= i < b.len() && b[i] == ma;
                assert(mb >= b[i]);
            }
        }
    }
}

} // verus!
