//! The service state machine: the protocol core.
//!
//! The service owns the routing table and the address book and is driven by
//! plain events — a connection opened, a frame arrived (with the edge's
//! verdict on its signature), a command, a clock tick, a stream closed. It
//! mutates its state and pushes [`Action`]s into an outbox the runtime
//! drains: frames to write, dials, disconnects, events to publish. It never
//! blocks and performs no I/O.
//!
//! Per connection the states run `Connecting -> Handshaking -> Ready ->
//! Disconnecting -> Closed`; the process-wide phase runs `Initializing ->
//! Running -> ShuttingDown -> Stopped`. A frame whose signature verdict is
//! negative never touches the routing table or the address book, and its
//! connection starts disconnecting.

use vstd::prelude::*;
use vstd::pervasive::VecAdditionalExecFns;
use crate::address::{attempted, Book, KnownAddress};
use crate::clock::Clock;
use crate::ids::{HostAddr, NodeId, ResourceId, Signature};
use crate::routing::{merged, wins, Table};
use crate::wire::Message;

verus! {

/// The network a node belongs to; nodes of different networks do not mix.
#[derive(PartialEq, Eq, Structural, Clone, Copy, Debug)]
pub enum Network {
    Main,
    Test,
}

/// Protocol tuning, immutable for the lifetime of a run.
#[derive(PartialEq, Eq, Structural, Clone, Copy, Debug)]
pub struct Config {
    pub network: Network,
    /// The protocol version spoken and required of peers.
    pub protocol_version: u16,
    /// How long a handshake may take before the connection is dropped (ms).
    pub handshake_timeout: u64,
    /// How long a ready connection may stay silent before it is dropped (ms).
    pub idle_timeout: u64,
    /// How long a routing claim lives (ms).
    pub routing_ttl: u64,
    /// How long a never-successful address record lives (ms).
    pub address_ttl: u64,
    /// To how many ready peers an announcement is fanned out at most.
    pub fanout: usize,
}

impl Config {
    /// The default tuning for the given network.
    pub fn new(network: Network) -> (c: Config)
        ensures
            c == (Config { network, ..spec_default_config() }),
    {
        Config { network, ..default_config() }
    }
}

/// The documented default tuning: a 10 s handshake, a 5 min idle cutoff, a
/// 7-day routing claim, a 30-day address record, fan-out to 6 peers.
pub open spec fn spec_default_config() -> Config {
    Config {
        network: Network::Main,
        protocol_version: 1,
        handshake_timeout: 10_000,
        idle_timeout: 300_000,
        routing_ttl: 604_800_000,
        address_ttl: 2_592_000_000,
        fanout: 6,
    }
}

/// The default tuning ([`spec_default_config`]).
pub fn default_config() -> (c: Config)
    ensures
        c == spec_default_config(),
{
    Config {
        network: Network::Main,
        protocol_version: 1,
        handshake_timeout: 10_000,
        idle_timeout: 300_000,
        routing_ttl: 604_800_000,
        address_ttl: 2_592_000_000,
        fanout: 6,
    }
}

impl Default for Config {
    fn default() -> (c: Config)
        ensures
            c == spec_default_config(),
    {
        default_config()
    }
}

/// The per-connection protocol states.
#[derive(PartialEq, Eq, Structural, Clone, Copy, Debug)]
pub enum SessionState {
    /// An outbound dial not yet connected.
    Connecting,
    /// Connected; greetings under way.
    Handshaking,
    /// The steady state: gossip flows.
    Ready,
    /// Being torn down; no frame is acted on any more.
    Disconnecting,
    /// Torn down; the runtime has discarded the stream.
    Closed,
}

/// The ephemeral state of one peer connection.
#[derive(PartialEq, Eq, Structural, Clone, Copy, Debug)]
pub struct Session {
    /// The runtime's identifier of the connection.
    pub id: u64,
    /// The remote address.
    pub addr: HostAddr,
    /// The peer's identity: pinned at dial time for outbound connections,
    /// learned from the handshake for inbound ones.
    pub peer: Option<NodeId>,
    /// Whether this node dialed.
    pub outbound: bool,
    pub state: SessionState,
    /// When `state` was entered (ms).
    pub state_since: u64,
    /// When a frame last arrived (ms).
    pub last_active: u64,
    /// Whether the session ever reached `Ready`.
    pub got_ready: bool,
}

/// An externally issued instruction, consumed exactly once.
#[derive(PartialEq, Eq, Structural, Clone, Copy, Debug)]
pub enum Command {
    /// Dial `node` at `addr`.
    Connect { node: NodeId, addr: HostAddr },
    /// Mark a resource of local interest: announce it and seek providers.
    Track { resource: ResourceId },
    /// Drop local interest in a resource.
    Untrack { resource: ResourceId },
    /// Begin the cooperative shutdown.
    Shutdown,
    /// Ask for the identities of the ready peers; answered with a
    /// [`QueryReply`] through the outbox.
    ListPeers,
    /// Ask for the live providers of `resource`; answered with a
    /// [`QueryReply`] through the outbox.
    ListRoutes { resource: ResourceId },
}

/// The answer to a query command, routed back to the asking handle.
#[derive(PartialEq, Eq, Clone, Debug)]
pub enum QueryReply {
    /// The identities of the peers whose connections are ready.
    Peers { peers: Vec<NodeId> },
    /// The providers of `resource` whose claims have not expired.
    Routes { resource: ResourceId, providers: Vec<NodeId> },
}

/// Why a connection is being torn down.
#[derive(PartialEq, Eq, Structural, Clone, Copy, Debug)]
pub enum DisconnectReason {
    /// A frame's signature did not verify against its claimed sender.
    Auth,
    /// A frame broke the protocol for the session's state.
    Protocol,
    /// The handshake did not complete in time.
    HandshakeTimeout,
    /// A ready connection stayed silent too long.
    Idle,
    /// Shutdown or an explicit command asked for it.
    Requested,
    /// The transport stream failed or was closed by the peer.
    Stream,
}

/// An outward notification, published for observability only.
#[derive(PartialEq, Eq, Structural, Clone, Copy, Debug)]
pub enum Event {
    PeerConnected { peer: NodeId },
    PeerDisconnected { peer: NodeId, reason: DisconnectReason },
    RoutingUpdated { resource: ResourceId, provider: NodeId },
    FetchCompleted { resource: ResourceId, success: bool },
}

/// What the service asks the runtime to do. Frames in `Write` carry a zero
/// signature; the edge signs them ([`crate::wire::signing_bytes`]) before
/// they hit the stream.
#[derive(PartialEq, Eq, Clone, Debug)]
pub enum Action {
    /// Open an outbound stream to `addr` under connection id `id`.
    Dial { id: u64, addr: HostAddr },
    /// Sign if needed, encode and queue `msg` on connection `id`.
    Write { id: u64, msg: Message },
    /// Tear connection `id` down.
    Disconnect { id: u64, reason: DisconnectReason },
    /// Synchronize `resource` over connection `id`.
    Fetch { id: u64, resource: ResourceId },
    /// Publish an event.
    Emit { event: Event },
    /// Hand a query's answer back to the asking handle.
    Respond { reply: QueryReply },
}

/// The process-wide lifecycle.
#[derive(PartialEq, Eq, Structural, Clone, Copy, Debug)]
pub enum Phase {
    Initializing,
    Running,
    ShuttingDown,
    Stopped,
}

/// Whether `s` holds a session with connection id `id`.
pub open spec fn has_sid(s: Seq<Session>, id: u64) -> bool {
    exists|i: int| 0 <= i < s.len() && (#[trigger] s[i]).id == id
}

/// The position of the session with id `id`, unique when ids are unique.
pub open spec fn sid_index(s: Seq<Session>, id: u64) -> int {
    choose|i: int| 0 <= i < s.len() && (#[trigger] s[i]).id == id
}

/// The session with id `id`, if any.
pub open spec fn lookup_sid(s: Seq<Session>, id: u64) -> Option<Session> {
    if has_sid(s, id) {
        Some(s[sid_index(s, id)])
    } else {
        Option::None
    }
}

/// Connection ids are unique.
pub open spec fn sids_unique(s: Seq<Session>) -> bool {
    forall|i: int, j: int|
        0 <= i < s.len() && 0 <= j < s.len() && i != j ==> (#[trigger] s[i]).id != (
        #[trigger] s[j]).id
}

/// With unique ids, a session found at `i` is the session of its id.
pub proof fn lemma_sid_at(s: Seq<Session>, i: int)
    requires
        sids_unique(s),
        0 <= i < s.len(),
    ensures
        has_sid(s, s[i].id),
        sid_index(s, s[i].id) == i,
        lookup_sid(s, s[i].id) == Some(s[i]),
{
    assert(has_sid(s, s[i].id));
    let j = sid_index(s, s[i].id);
    if j != i {
        assert(false);
    }
}

/// Updating one session in place — same id — moves only that id's lookup.
pub proof fn lemma_sid_update(s: Seq<Session>, s2: Seq<Session>, i: int)
    requires
        sids_unique(s),
        0 <= i < s.len(),
        s2.len() == s.len(),
        s2[i].id == s[i].id,
        forall|j: int| 0 <= j < s.len() && j != i ==> s2[j] == s[j],
    ensures
        sids_unique(s2),
        lookup_sid(s2, s[i].id) == Some(s2[i]),
        forall|id: u64| id != s[i].id ==> lookup_sid(s2, id) == lookup_sid(s, id),
{
    assert forall|a: int, b: int|
        0 <= a < s2.len() && 0 <= b < s2.len() && a != b implies (#[trigger] s2[a]).id != (
    #[trigger] s2[b]).id by {
        assert(s2[a].id == s[a].id && s2[b].id == s[b].id);
    }
    lemma_sid_at(s2, i);
    assert forall|id: u64| id != s[i].id implies lookup_sid(s2, id) == lookup_sid(s, id) by {
        if has_sid(s, id) {
            let j = sid_index(s, id);
            assert(s[j].id == id);
            lemma_sid_at(s, j);
            assert(j != i);
            assert(s2[j] == s[j]);
            lemma_sid_at(s2, j);
        } else {
            if has_sid(s2, id) {
                let j = sid_index(s2, id);
                assert(s2[j].id == id);
                assert(j != i);
                assert(s[j].id == id);
            }
        }
    }
}

/// `s` in the torn-down-pending state, entered at `now`.
pub open spec fn disconnecting(s: Session, now: u64) -> Session {
    Session { state: SessionState::Disconnecting, state_since: now, ..s }
}

/// `s` after its handshake completed with peer `node` at `now`.
pub open spec fn readied(s: Session, node: NodeId, now: u64) -> Session {
    Session {
        peer: Some(node),
        state: SessionState::Ready,
        state_since: now,
        last_active: now,
        got_ready: true,
        ..s
    }
}

/// `s` after a valid frame arrived at `now`.
pub open spec fn touched(s: Session, now: u64) -> Session {
    Session { last_active: now, ..s }
}

/// A session state in which frames are acted on.
pub open spec fn active(st: SessionState) -> bool {
    st == SessionState::Handshaking || st == SessionState::Ready
}

/// A handshake this node accepts on session `s`: the version matches, and an
/// outbound session's pinned identity is confirmed.
pub open spec fn handshake_ok(s: Session, node: NodeId, version: u16, c: Config) -> bool {
    version == c.protocol_version && match s.peer {
        Some(expected) => expected == node,
        Option::None => true,
    }
}

/// The address record stored after "`node` is at `a`" gossip arrives at
/// `now`: a known pair is re-stamped as just seen, an unknown one starts a
/// fresh record. Success and attempt history are never touched by gossip.
pub open spec fn learned(prev: Option<KnownAddress>, node: NodeId, a: HostAddr, now: u64) -> KnownAddress {
    match prev {
        Some(r) => KnownAddress { last_seen: now, ..r },
        Option::None => KnownAddress {
            node,
            addr: a,
            last_seen: now,
            last_success: Option::None,
            attempts: 0,
        },
    }
}

/// A counter one higher, saturating at the top.
pub open spec fn bump64(x: u64) -> u64 {
    if x == u64::MAX {
        x
    } else {
        (x + 1) as u64
    }
}

/// `s` after the clock reads `now`: a handshake that overran its timeout or
/// a ready session idle past its cutoff starts disconnecting; every other
/// session is untouched.
pub open spec fn ticked(s: Session, now: u64, c: Config) -> Session {
    if s.state == SessionState::Handshaking && s.state_since + c.handshake_timeout < now {
        disconnecting(s, now)
    } else if s.state == SessionState::Ready && s.last_active + c.idle_timeout < now {
        disconnecting(s, now)
    } else {
        s
    }
}

/// The protocol core. Owns the stores and the per-connection sessions;
/// driven by events, answers with actions.
pub struct Service {
    pub config: Config,
    pub clock: Clock,
    pub routing: Table,
    pub addresses: Book,
    /// This node's identity: the signer capability's public key.
    pub local: NodeId,
    pub phase: Phase,
    pub sessions: Vec<Session>,
    /// Resources of local interest.
    pub interests: Vec<ResourceId>,
    /// What the runtime must do; drained by the runtime.
    pub outbox: Vec<Action>,
    /// Frames dropped for bad signatures or protocol violations.
    pub dropped_frames: u64,
    /// The next connection id handed to an outbound dial or an accept.
    pub next_session: u64,
    pub rng: fastrand::Rng,
}

impl Service {
    /// Well-formed: the stores are, connection ids are unique and below the
    /// id counter.
    pub open spec fn wf(self) -> bool {
        &&& self.routing.wf()
        &&& self.addresses.wf()
        &&& sids_unique(self.sessions@)
        &&& forall|i: int|
            0 <= i < self.sessions@.len() ==> (#[trigger] self.sessions@[i]).id
                < self.next_session
    }

    /// The session of connection `id`, if any.
    pub open spec fn session_of(self, id: u64) -> Option<Session> {
        lookup_sid(self.sessions@, id)
    }

    /// Everything a frame or a tick may not change.
    pub open spec fn same_env(self, o: Service) -> bool {
        &&& self.config == o.config
        &&& self.clock == o.clock
        &&& self.local == o.local
        &&& self.phase == o.phase
        &&& self.next_session == o.next_session
        &&& self.interests@ == o.interests@
    }

    /// A service bound to its stores, signer identity and random source;
    /// not yet running.
    pub fn new(config: Config, clock: Clock, routing: Table, addresses: Book, local: NodeId, rng: fastrand::Rng) -> (s: Service)
        requires
            routing.wf(),
            addresses.wf(),
        ensures
            s.wf(),
            s.config == config,
            s.clock == clock,
            s.routing == routing,
            s.addresses == addresses,
            s.local == local,
            s.phase == Phase::Initializing,
            s.sessions@ =~= Seq::<Session>::empty(),
            s.interests@ =~= Seq::<ResourceId>::empty(),
            s.outbox@ =~= Seq::<Action>::empty(),
            s.dropped_frames == 0,
            s.next_session == 0,
    {
        Service {
            config,
            clock,
            routing,
            addresses,
            local,
            phase: Phase::Initializing,
            sessions: Vec::new(),
            interests: Vec::new(),
            outbox: Vec::new(),
            dropped_frames: 0,
            next_session: 0,
            rng,
        }
    }

    /// Enter the running phase; the reactor is about to deliver events.
    pub fn start(&mut self)
        requires
            old(self).wf(),
            old(self).phase == Phase::Initializing,
        ensures
            final(self).wf(),
            final(self).phase == Phase::Running,
            *final(self) == (Service { phase: Phase::Running, ..*old(self) }),
    {
        self.phase = Phase::Running;
    }

    /// Leave the shutting-down phase once the runtime has drained in-flight
    /// work: the terminal state.
    pub fn stop(&mut self)
        requires
            old(self).wf(),
            old(self).phase == Phase::ShuttingDown,
        ensures
            final(self).wf(),
            *final(self) == (Service { phase: Phase::Stopped, ..*old(self) }),
    {
        self.phase = Phase::Stopped;
    }

    /// Move the service clock forward; it never runs backwards.
    pub fn set_clock(&mut self, now: u64)
        requires
            old(self).wf(),
        ensures
            final(self).wf(),
            final(self).clock.spec_now() == if now > old(self).clock.spec_now() {
                now
            } else {
                old(self).clock.spec_now()
            },
            *final(self) == (Service { clock: final(self).clock, ..*old(self) }),
    {
        self.clock.set(now);
    }

    /// The position of the session with connection id `id`, if any.
    fn find_session(&self, id: u64) -> (r: Option<usize>)
        requires
            self.wf(),
        ensures
            match r {
                Some(i) => i < self.sessions@.len() && self.sessions@[i as int].id == id
                    && self.session_of(id) == Some(self.sessions@[i as int])
                    && sid_index(self.sessions@, id) == i,
                Option::None => self.session_of(id) is None,
            },
    {
        let n = self.sessions.len();
        let mut i: usize = 0;
        while i < n
            invariant
                n == self.sessions@.len(),
                i <= n,
                self.wf(),
                forall|j: int| 0 <= j < i ==> (#[trigger] self.sessions@[j]).id != id,
            decreases n - i,
        {
            if self.sessions[i].id == id {
                proof {
                    lemma_sid_at(self.sessions@, i as int);
                }
                return Some(i);
            }
            i = i + 1;
        }
        proof {
            if has_sid(self.sessions@, id) {
                let j = sid_index(self.sessions@, id);
                assert(self.sessions@[j].id == id);
                assert(false);
            }
        }
        Option::None
    }
}

#[verifier::external_type_specification]
#[verifier::external_body]
pub struct ExRng(fastrand::Rng);

/// Relies on fastrand::Rng::new: a generator seeded from the thread-local
/// one. Nothing is promised of it.
#[verifier::external_body]
pub fn rng_new() -> (r: fastrand::Rng) {
    fastrand::Rng::new()
}

/// Relies on fastrand::Rng::with_seed: a generator in the deterministic
/// state `seed` dictates. Nothing is promised of its draws.
#[verifier::external_body]
pub fn rng_with_seed(seed: u64) -> (r: fastrand::Rng) {
    fastrand::Rng::with_seed(seed)
}

/// Relies on fastrand::Rng::usize over the range `..n`, which returns a
/// value of that range and panics only on an empty one, excluded here.
#[verifier::external_body]
fn rng_below(rng: &fastrand::Rng, n: usize) -> (r: usize)
    requires
        n >= 1,
    ensures
        r < n,
{
    rng.usize(..n)
}

} // verus!

verus! {

impl Service {
    /// Start tearing session `i` down: its state becomes `Disconnecting`,
    /// the frame that caused it is counted as dropped, and the runtime is
    /// asked to close the stream. No store is touched.
    fn drop_session(&mut self, i: usize, reason: DisconnectReason, now: u64)
        requires
            old(self).wf(),
            i < old(self).sessions@.len(),
        ensures
            final(self).wf(),
            final(self).same_env(*old(self)),
            final(self).routing == old(self).routing,
            final(self).addresses == old(self).addresses,
            final(self).sessions@ == old(self).sessions@.update(
                i as int,
                disconnecting(old(self).sessions@[i as int], now),
            ),
            final(self).session_of(old(self).sessions@[i as int].id) == Some(
                disconnecting(old(self).sessions@[i as int], now),
            ),
            forall|id2: u64|
                id2 != old(self).sessions@[i as int].id ==> final(self).session_of(id2) == old(self).session_of(id2),
            final(self).dropped_frames == bump64(old(self).dropped_frames),
            final(self).outbox@ == old(self).outbox@.push(
                Action::Disconnect { id: old(self).sessions@[i as int].id, reason },
            ),
    {
        let s = self.sessions[i];
        self.sessions.set(i, Session { state: SessionState::Disconnecting, state_since: now, ..s });
        self.dropped_frames = if self.dropped_frames == u64::MAX {
            self.dropped_frames
        } else {
            self.dropped_frames + 1
        };
        self.outbox.push(Action::Disconnect { id: s.id, reason });
        proof {
            lemma_sid_update(old(self).sessions@, self.sessions@, i as int);
            assert forall|k: int|
                0 <= k < self.sessions@.len() implies (#[trigger] self.sessions@[k]).id
                < self.next_session by {
                assert(self.sessions@[k].id == old(self).sessions@[k].id);
            }
        }
    }

    /// Whether `resource` is of local interest.
    pub fn is_tracked(&self, resource: ResourceId) -> (r: bool)
        ensures
            r == self.interests@.contains(resource),
    {
        let n = self.interests.len();
        let mut k: usize = 0;
        while k < n
            invariant
                n == self.interests@.len(),
                k <= n,
                forall|q: int| 0 <= q < k ==> self.interests@[q] != resource,
            decreases n - k,
        {
            if self.interests[k] == resource {
                proof {
                    assert(self.interests@[k as int] == resource);
                }
                return true;
            }
            k = k + 1;
        }
        proof {
            if self.interests@.contains(resource) {
                let q = choose|q: int|
                    0 <= q < self.interests@.len() && self.interests@[q] == resource;
                assert(false);
            }
        }
        false
    }

    /// Handle a frame that arrived on connection `id` at `now`, with the
    /// edge's verdict `sig_ok` on its signature.
    ///
    /// A frame whose signature did not verify mutates neither the routing
    /// table nor the address book — their contents are bit-for-bit those
    /// before the call — and its connection transitions to `Disconnecting`.
    /// A verified handshake makes the session ready and, on an outbound
    /// dial, scores the address as a success; a verified routing
    /// announcement takes one [`merged`] step in the routing table; a
    /// verified address announcement takes one [`learned`] step in the
    /// address book; a ping is answered; a frame wrong for the session's
    /// state is a protocol violation and the connection is dropped.
    pub fn message(&mut self, id: u64, msg: Message, sig_ok: bool, now: u64)
        requires
            old(self).wf(),
        ensures
            final(self).wf(),
            final(self).same_env(*old(self)),
            (match old(self).session_of(id) {
                Option::None => *final(self) == *old(self),
                Some(s) => {
                    &&& (!active(s.state) ==> *final(self) == *old(self))
                    &&& (active(s.state) && !sig_ok ==> {
                        &&& final(self).routing == old(self).routing
                        &&& final(self).addresses == old(self).addresses
                        &&& final(self).sessions@ == old(self).sessions@.update(
                            sid_index(old(self).sessions@, id),
                            disconnecting(s, now),
                        )
                        &&& final(self).session_of(id) == Some(disconnecting(s, now))
                        &&& final(self).dropped_frames == bump64(old(self).dropped_frames)
                        &&& final(self).outbox@ == old(self).outbox@.push(
                            Action::Disconnect { id, reason: DisconnectReason::Auth },
                        )
                    })
                    &&& (s.state == SessionState::Handshaking && sig_ok ==> (match msg {
                        Message::Handshake { node, version, .. } => {
                            if handshake_ok(s, node, version, old(self).config) {
                                &&& final(self).routing == old(self).routing
                                &&& final(self).sessions@ == old(self).sessions@.update(
                                    sid_index(old(self).sessions@, id),
                                    readied(s, node, now),
                                )
                                &&& final(self).session_of(id) == Some(readied(s, node, now))
                                &&& final(self).dropped_frames == old(self).dropped_frames
                                &&& final(self).outbox@ == old(self).outbox@.push(
                                    Action::Emit { event: Event::PeerConnected { peer: node } },
                                )
                                &&& (s.outbound ==> {
                                    &&& final(self).addresses.lookup(node, s.addr) == Some(
                                        attempted(
                                            old(self).addresses.lookup(node, s.addr),
                                            node,
                                            s.addr,
                                            true,
                                            now,
                                        ),
                                    )
                                    &&& forall|n2: NodeId, a2: HostAddr|
                                        !(n2 == node && a2 == s.addr) ==> final(self).addresses.lookup(n2, a2) == old(self).addresses.lookup(
                                            n2,
                                            a2,
                                        )
                                })
                                &&& (!s.outbound ==> final(self).addresses == old(self).addresses)
                            } else {
                                protocol_violation(*old(self), *final(self), s, id, now)
                            }
                        },
                        _ => protocol_violation(*old(self), *final(self), s, id, now),
                    }))
                    &&& (s.state == SessionState::Ready && sig_ok ==> (match msg {
                        Message::RoutingAnnouncement { resource, provider, timestamp, .. } => {
                            &&& final(self).addresses == old(self).addresses
                            &&& final(self).routing.lookup(resource, provider) == Some(
                                merged(old(self).routing.lookup(resource, provider), timestamp),
                            )
                            &&& forall|r2: ResourceId, p2: NodeId|
                                !(r2 == resource && p2 == provider) ==> final(self).routing.lookup(r2, p2) == old(self).routing.lookup(r2, p2)
                            &&& final(self).sessions@ == old(self).sessions@.update(
                                sid_index(old(self).sessions@, id),
                                touched(s, now),
                            )
                            &&& final(self).dropped_frames == old(self).dropped_frames
                            &&& final(self).outbox@ == (if wins(
                                old(self).routing.lookup(resource, provider),
                                timestamp,
                            ) {
                                if old(self).interests@.contains(resource) {
                                    old(self).outbox@.push(
                                        Action::Emit {
                                            event: Event::RoutingUpdated { resource, provider },
                                        },
                                    ).push(Action::Fetch { id, resource })
                                } else {
                                    old(self).outbox@.push(
                                        Action::Emit {
                                            event: Event::RoutingUpdated { resource, provider },
                                        },
                                    )
                                }
                            } else {
                                old(self).outbox@
                            })
                        },
                        Message::AddressAnnouncement { node, addr, .. } => {
                            &&& final(self).routing == old(self).routing
                            &&& final(self).addresses.lookup(node, addr) == Some(
                                learned(old(self).addresses.lookup(node, addr), node, addr, now),
                            )
                            &&& forall|n2: NodeId, a2: HostAddr|
                                !(n2 == node && a2 == addr) ==> final(self).addresses.lookup(
                                    n2,
                                    a2,
                                ) == old(self).addresses.lookup(n2, a2)
                            &&& final(self).sessions@ == old(self).sessions@.update(
                                sid_index(old(self).sessions@, id),
                                touched(s, now),
                            )
                            &&& final(self).dropped_frames == old(self).dropped_frames
                            &&& final(self).outbox@ == old(self).outbox@
                        },
                        Message::Ping { nonce } => {
                            &&& final(self).routing == old(self).routing
                            &&& final(self).addresses == old(self).addresses
                            &&& final(self).sessions@ == old(self).sessions@.update(
                                sid_index(old(self).sessions@, id),
                                touched(s, now),
                            )
                            &&& final(self).dropped_frames == old(self).dropped_frames
                            &&& final(self).outbox@ == old(self).outbox@.push(
                                Action::Write { id, msg: Message::Pong { nonce } },
                            )
                        },
                        Message::Pong { .. } => {
                            &&& final(self).routing == old(self).routing
                            &&& final(self).addresses == old(self).addresses
                            &&& final(self).sessions@ == old(self).sessions@.update(
                                sid_index(old(self).sessions@, id),
                                touched(s, now),
                            )
                            &&& final(self).dropped_frames == old(self).dropped_frames
                            &&& final(self).outbox@ == old(self).outbox@
                        },
                        Message::Handshake { .. } => protocol_violation(
                            *old(self),
                            *final(self),
                            s,
                            id,
                            now,
                        ),
                    }))
                },
            }),
    {
        let found = self.find_session(id);
        let i: usize = match found {
            Some(k) => k,
            Option::None => {
                return ;
            },
        };
        let s = self.sessions[i];
        let is_active = match s.state {
            SessionState::Handshaking => true,
            SessionState::Ready => true,
            _ => false,
        };
        if !is_active {
            return ;
        }
        if !sig_ok {
            self.drop_session(i, DisconnectReason::Auth, now);
            return ;
        }
        match s.state {
            SessionState::Handshaking => {
                match msg {
                    Message::Handshake { node, version, timestamp: _, signature: _ } => {
                        let pin_ok = match s.peer {
                            Some(expected) => expected == node,
                            Option::None => true,
                        };
                        if version == self.config.protocol_version && pin_ok {
                            self.sessions.set(
                                i,
                                Session {
                                    peer: Some(node),
                                    state: SessionState::Ready,
                                    state_since: now,
                                    last_active: now,
                                    got_ready: true,
                                    ..s
                                },
                            );
                            if s.outbound {
                                self.addresses.record_attempt(node, s.addr, true, now);
                            }
                            self.outbox.push(
                                Action::Emit { event: Event::PeerConnected { peer: node } },
                            );
                            proof {
                                lemma_sid_update(old(self).sessions@, self.sessions@, i as int);
                                assert forall|k: int|
                                    0 <= k < self.sessions@.len() implies (
                                #[trigger] self.sessions@[k]).id < self.next_session by {
                                    assert(self.sessions@[k].id == old(self).sessions@[k].id);
                                }
                            }
                        } else {
                            self.drop_session(i, DisconnectReason::Protocol, now);
                        }
                    },
                    _ => {
                        self.drop_session(i, DisconnectReason::Protocol, now);
                    },
                }
            },
            SessionState::Ready => {
                match msg {
                    Message::RoutingAnnouncement { resource, provider, timestamp, signature: _ } => {
                        let updated = self.routing.insert(resource, provider, timestamp);
                        self.sessions.set(i, Session { last_active: now, ..s });
                        if updated {
                            self.outbox.push(
                                Action::Emit {
                                    event: Event::RoutingUpdated { resource, provider },
                                },
                            );
                            let track_hit = self.is_tracked(resource);
                            if track_hit {
                                self.outbox.push(Action::Fetch { id, resource });
                            }
                        }
                        proof {
                            lemma_sid_update(old(self).sessions@, self.sessions@, i as int);
                            assert forall|k2: int|
                                0 <= k2 < self.sessions@.len() implies (
                            #[trigger] self.sessions@[k2]).id < self.next_session by {
                                assert(self.sessions@[k2].id == old(self).sessions@[k2].id);
                            }
                        }
                    },
                    Message::AddressAnnouncement { node, addr, timestamp: _, signature: _ } => {
                        let prev = self.addresses.get(node, addr);
                        let rec = match prev {
                            Some(r) => KnownAddress { last_seen: now, ..r },
                            Option::None => KnownAddress {
                                node,
                                addr,
                                last_seen: now,
                                last_success: Option::None,
                                attempts: 0,
                            },
                        };
                        self.addresses.insert_or_update(rec);
                        self.sessions.set(i, Session { last_active: now, ..s });
                        proof {
                            lemma_sid_update(old(self).sessions@, self.sessions@, i as int);
                            assert forall|k2: int|
                                0 <= k2 < self.sessions@.len() implies (
                            #[trigger] self.sessions@[k2]).id < self.next_session by {
                                assert(self.sessions@[k2].id == old(self).sessions@[k2].id);
                            }
                        }
                    },
                    Message::Ping { nonce } => {
                        self.sessions.set(i, Session { last_active: now, ..s });
                        self.outbox.push(Action::Write { id, msg: Message::Pong { nonce } });
                        proof {
                            lemma_sid_update(old(self).sessions@, self.sessions@, i as int);
                            assert forall|k2: int|
                                0 <= k2 < self.sessions@.len() implies (
                            #[trigger] self.sessions@[k2]).id < self.next_session by {
                                assert(self.sessions@[k2].id == old(self).sessions@[k2].id);
                            }
                        }
                    },
                    Message::Pong { nonce: _ } => {
                        self.sessions.set(i, Session { last_active: now, ..s });
                        proof {
                            lemma_sid_update(old(self).sessions@, self.sessions@, i as int);
                            assert forall|k2: int|
                                0 <= k2 < self.sessions@.len() implies (
                            #[trigger] self.sessions@[k2]).id < self.next_session by {
                                assert(self.sessions@[k2].id == old(self).sessions@[k2].id);
                            }
                        }
                    },
                    Message::Handshake { .. } => {
                        self.drop_session(i, DisconnectReason::Protocol, now);
                    },
                }
            },
            _ => {},
        }
    }
}

/// The step a frame wrong for its session's state takes: nothing stored
/// changes, the frame is counted as dropped, and the connection starts
/// disconnecting with a protocol-violation reason.
pub open spec fn protocol_violation(pre: Service, post: Service, s: Session, id: u64, now: u64) -> bool {
    &&& post.routing == pre.routing
    &&& post.addresses == pre.addresses
    &&& post.sessions@ == pre.sessions@.update(sid_index(pre.sessions@, id), disconnecting(s, now))
    &&& post.session_of(id) == Some(disconnecting(s, now))
    &&& post.dropped_frames == bump64(pre.dropped_frames)
    &&& post.outbox@ == pre.outbox@.push(
        Action::Disconnect { id, reason: DisconnectReason::Protocol },
    )
}

} // verus!

verus! {

/// The gossip frame announcing "this node hosts `resource`", authored at
/// `now`; the edge signs it before it hits a stream.
pub open spec fn ann_msg(resource: ResourceId, local: NodeId, now: u64) -> Message {
    Message::RoutingAnnouncement {
        resource,
        provider: local,
        timestamp: now,
        signature: Signature(0),
    }
}

/// `s` when shutdown begins: live connections start disconnecting, the rest
/// stay as they are.
pub open spec fn shut(s: Session, now: u64) -> Session {
    if s.state == SessionState::Connecting || s.state == SessionState::Handshaking || s.state
        == SessionState::Ready {
        disconnecting(s, now)
    } else {
        s
    }
}

/// Why [`ticked`] tore a session down.
pub open spec fn tick_reason(s: Session) -> DisconnectReason {
    if s.state == SessionState::Handshaking {
        DisconnectReason::HandshakeTimeout
    } else {
        DisconnectReason::Idle
    }
}

/// Up to `n` draws from `pool`, distinct, chosen by the random source. Which
/// ones come out is the generator's business; that they come from the pool,
/// how many, and that none repeats is not.
fn pick_targets(rng: &fastrand::Rng, pool: &Vec<u64>, n: usize) -> (out: Vec<u64>)
    requires
        forall|k1: int, k2: int| 0 <= k1 < k2 < pool@.len() ==> pool@[k1] != pool@[k2],
    ensures
        out@.len() == if n < pool@.len() {
            n as int
        } else {
            pool@.len() as int
        },
        forall|k: int| 0 <= k < out@.len() ==> pool@.contains(#[trigger] out@[k]),
        forall|k1: int, k2: int| 0 <= k1 < k2 < out@.len() ==> out@[k1] != out@[k2],
{
    let mut work: Vec<u64> = Vec::new();
    let np = pool.len();
    let mut i: usize = 0;
    while i < np
        invariant
            np == pool@.len(),
            i <= np,
            work@ == pool@.take(i as int),
        decreases np - i,
    {
        work.push(pool[i]);
        proof {
            assert(work@ =~= pool@.take(i as int + 1));
        }
        i = i + 1;
    }
    proof {
        assert(pool@.take(np as int) =~= pool@);
    }
    let mut out: Vec<u64> = Vec::new();
    while out.len() < n && work.len() > 0
        invariant
            out@.len() <= n,
            forall|k: int| 0 <= k < work@.len() ==> pool@.contains(#[trigger] work@[k]),
            forall|k: int| 0 <= k < out@.len() ==> pool@.contains(#[trigger] out@[k]),
            forall|k1: int, k2: int| 0 <= k1 < k2 < work@.len() ==> work@[k1] != work@[k2],
            forall|k1: int, k2: int| 0 <= k1 < k2 < out@.len() ==> out@[k1] != out@[k2],
            forall|k1: int, k2: int|
                0 <= k1 < out@.len() && 0 <= k2 < work@.len() ==> (#[trigger] out@[k1]) != (
                #[trigger] work@[k2]),
            out@.len() + work@.len() == pool@.len(),
        decreases work@.len(),
    {
        let j = rng_below(rng, work.len());
        let ghost oldwork = work@;
        let ghost b = j as int;
        let picked = work.remove(j);
        out.push(picked);
        proof {
            assert(picked == oldwork[b]);
            assert(work@ == oldwork.remove(b));
            assert forall|k: int| 0 <= k < work@.len() implies pool@.contains(
                #[trigger] work@[k],
            ) by {
                let k0 = if k < b {
                    k
                } else {
                    k + 1
                };
                assert(work@[k] == oldwork[k0]);
            }
            assert forall|k1: int, k2: int|
                0 <= k1 < k2 < work@.len() implies work@[k1] != work@[k2] by {
                let k10 = if k1 < b {
                    k1
                } else {
                    k1 + 1
                };
                let k20 = if k2 < b {
                    k2
                } else {
                    k2 + 1
                };
                assert(work@[k1] == oldwork[k10] && work@[k2] == oldwork[k20]);
            }
            assert forall|k1: int, k2: int|
                0 <= k1 < out@.len() && 0 <= k2 < work@.len() implies (#[trigger] out@[k1]) != (
            #[trigger] work@[k2]) by {
                let k20 = if k2 < b {
                    k2
                } else {
                    k2 + 1
                };
                assert(work@[k2] == oldwork[k20]);
                if k1 < out@.len() - 1 {
                } else {
                    assert(out@[k1] == oldwork[b] && k20 != b);
                }
            }
        }
    }
    out
}

impl Service {
    /// The connection ids of the sessions gossip can flow on.
    fn ready_ids(&self) -> (ids: Vec<u64>)
        requires
            self.wf(),
        ensures
            forall|k: int|
                0 <= k < ids@.len() ==> ((#[trigger] lookup_sid(self.sessions@, ids@[k])) matches
                    Some(s) && s.state == SessionState::Ready),
            forall|k1: int, k2: int| 0 <= k1 < k2 < ids@.len() ==> ids@[k1] != ids@[k2],
    {
        let n = self.sessions.len();
        let mut ids: Vec<u64> = Vec::new();
        let mut i: usize = 0;
        while i < n
            invariant
                n == self.sessions@.len(),
                i <= n,
                self.wf(),
                forall|k: int|
                    0 <= k < ids@.len() ==> ((#[trigger] lookup_sid(self.sessions@, ids@[k]))
                        matches Some(s) && s.state == SessionState::Ready),
                forall|k1: int, k2: int| 0 <= k1 < k2 < ids@.len() ==> ids@[k1] != ids@[k2],
                forall|k: int|
                    0 <= k < ids@.len() ==> exists|j: int|
                        0 <= j < i && (#[trigger] self.sessions@[j]).id == #[trigger] ids@[k],
            decreases n - i,
        {
            let s = self.sessions[i];
            let is_ready = match s.state {
                SessionState::Ready => true,
                _ => false,
            };
            if is_ready {
                proof {
                    lemma_sid_at(self.sessions@, i as int);
                    if ids@.contains(s.id) {
                        let k = choose|k: int| 0 <= k < ids@.len() && ids@[k] == s.id;
                        let j = choose|j: int|
                            0 <= j < i && (#[trigger] self.sessions@[j]).id == ids@[k];
                        assert(false);
                    }
                }
                let ghost pre = ids@;
                ids.push(s.id);
                proof {
                    assert(ids@ == pre.push(s.id));
                    assert forall|k1: int, k2: int|
                        0 <= k1 < k2 < ids@.len() implies ids@[k1] != ids@[k2] by {
                        if k2 == pre.len() {
                            assert(!pre.contains(s.id));
                            assert(ids@[k1] == pre[k1]);
                        }
                    }
                    assert forall|k: int| 0 <= k < ids@.len() implies exists|j: int|
                        0 <= j < i + 1 && (#[trigger] self.sessions@[j]).id == #[trigger] ids@[k] by {
                        if k < pre.len() {
                            let j = choose|j: int|
                                0 <= j < i && (#[trigger] self.sessions@[j]).id == pre[k];
                            assert(0 <= j < i + 1 && self.sessions@[j].id == ids@[k]);
                        } else {
                            assert(self.sessions@[i as int].id == ids@[k]);
                        }
                    }
                }
            }
            i = i + 1;
        }
        ids
    }

    /// Fan the announcement for `resource` out to at most the configured
    /// number of ready peers, chosen by the random source. Whatever it
    /// picks: only `Write` actions of that one announcement are appended,
    /// each to a distinct ready session, at most `fanout` of them.
    fn fan_out(&mut self, resource: ResourceId, now: u64)
        requires
            old(self).wf(),
        ensures
            final(self).wf(),
            final(self).same_env(*old(self)),
            final(self).routing == old(self).routing,
            final(self).addresses == old(self).addresses,
            final(self).sessions@ == old(self).sessions@,
            final(self).dropped_frames == old(self).dropped_frames,
            old(self).outbox@.is_prefix_of(final(self).outbox@),
            final(self).outbox@.len() <= old(self).outbox@.len() + old(self).config.fanout,
            forall|k: int|
                old(self).outbox@.len() <= k < final(self).outbox@.len() ==> (match #[trigger] final(self).outbox@[k] {
                    Action::Write { id, msg } => msg == ann_msg(
                        resource,
                        old(self).local,
                        now,
                    ) && (lookup_sid(old(self).sessions@, id) matches Some(s) && s.state
                        == SessionState::Ready),
                    _ => false,
                }),
            forall|k1: int, k2: int|
                old(self).outbox@.len() <= k1 < k2 < final(self).outbox@.len() ==> (match (
                #[trigger] final(self).outbox@[k1], #[trigger] final(self).outbox@[k2]) {
                    (Action::Write { id: id1, .. }, Action::Write { id: id2, .. }) => id1 != id2,
                    _ => true,
                }),
    {
        let pool = self.ready_ids();
        let targets = pick_targets(&self.rng, &pool, self.config.fanout);
        let nt = targets.len();
        let ghost preout = self.outbox@;
        let mut k: usize = 0;
        while k < nt
            invariant
                nt == targets@.len(),
                k <= nt,
                nt <= self.config.fanout,
                self.wf(),
                self.outbox@.len() == preout.len() + k,
                preout.is_prefix_of(self.outbox@),
                forall|q: int|
                    preout.len() <= q < self.outbox@.len() ==> self.outbox@[q] == (Action::Write {
                        id: targets@[q - preout.len()],
                        msg: ann_msg(resource, self.local, now),
                    }),
                forall|q: int|
                    0 <= q < targets@.len() ==> ((#[trigger] lookup_sid(
                        self.sessions@,
                        targets@[q],
                    )) matches Some(s) && s.state == SessionState::Ready),
                self.config == old(self).config,
                self.clock == old(self).clock,
                self.local == old(self).local,
                self.phase == old(self).phase,
                self.next_session == old(self).next_session,
                self.interests@ == old(self).interests@,
                self.routing == old(self).routing,
                self.addresses == old(self).addresses,
                self.sessions@ == old(self).sessions@,
                self.dropped_frames == old(self).dropped_frames,
            decreases nt - k,
        {
            let ghost mid = self.outbox@;
            self.outbox.push(
                Action::Write { id: targets[k], msg: Message::RoutingAnnouncement {
                    resource,
                    provider: self.local,
                    timestamp: now,
                    signature: Signature(0),
                } },
            );
            proof {
                assert(self.outbox@ == mid.push(
                    Action::Write { id: targets@[k as int], msg: ann_msg(resource, self.local, now) },
                ));
                assert forall|q: int|
                    preout.len() <= q < self.outbox@.len() implies self.outbox@[q]
                    == (Action::Write {
                    id: targets@[q - preout.len()],
                    msg: ann_msg(resource, self.local, now),
                }) by {
                    if q < mid.len() {
                        assert(self.outbox@[q] == mid[q]);
                    }
                }
            }
            k = k + 1;
        }
        proof {
            assert forall|k1: int, k2: int|
                preout.len() <= k1 < k2 < self.outbox@.len() implies (match (
            #[trigger] self.outbox@[k1], #[trigger] self.outbox@[k2]) {
                (Action::Write { id: id1, .. }, Action::Write { id: id2, .. }) => id1 != id2,
                _ => true,
            }) by {
                assert(self.outbox@[k1] == (Action::Write {
                    id: targets@[k1 - preout.len()],
                    msg: ann_msg(resource, self.local, now),
                }));
                assert(self.outbox@[k2] == (Action::Write {
                    id: targets@[k2 - preout.len()],
                    msg: ann_msg(resource, self.local, now),
                }));
            }
        }
    }
}

} // verus!

verus! {

/// A fresh outbound session dialing `node` at `addr` under connection `id`.
pub open spec fn dialing(id: u64, node: NodeId, addr: HostAddr, now: u64) -> Session {
    Session {
        id,
        addr,
        peer: Some(node),
        outbound: true,
        state: SessionState::Connecting,
        state_since: now,
        last_active: now,
        got_ready: false,
    }
}

/// A fresh inbound session accepted from `addr` under connection `id`.
pub open spec fn accepting(id: u64, addr: HostAddr, now: u64) -> Session {
    Session {
        id,
        addr,
        peer: Option::None,
        outbound: false,
        state: SessionState::Handshaking,
        state_since: now,
        last_active: now,
        got_ready: false,
    }
}

/// The greeting this node sends when a connection opens; signed at the edge.
pub open spec fn greeting(local: NodeId, version: u16, now: u64) -> Message {
    Message::Handshake { node: local, version, timestamp: now, signature: Signature(0) }
}

impl Service {
    /// An inbound connection was accepted from `addr`: a session is opened
    /// under a fresh connection id — returned to the runtime — and this
    /// node's greeting goes out.
    pub fn accepted(&mut self, addr: HostAddr, now: u64) -> (id: u64)
        requires
            old(self).wf(),
            old(self).next_session < u64::MAX,
        ensures
            final(self).wf(),
            id == old(self).next_session,
            final(self).next_session == old(self).next_session + 1,
            final(self).sessions@ == old(self).sessions@.push(accepting(id, addr, now)),
            final(self).session_of(id) == Some(accepting(id, addr, now)),
            forall|id2: u64| id2 != id ==> final(self).session_of(id2) == old(self).session_of(id2),
            final(self).outbox@ == old(self).outbox@.push(
                Action::Write {
                    id,
                    msg: greeting(old(self).local, old(self).config.protocol_version, now),
                },
            ),
            final(self).routing == old(self).routing,
            final(self).addresses == old(self).addresses,
            final(self).config == old(self).config,
            final(self).clock == old(self).clock,
            final(self).local == old(self).local,
            final(self).phase == old(self).phase,
            final(self).interests@ == old(self).interests@,
            final(self).dropped_frames == old(self).dropped_frames,
    {
        let id = self.next_session;
        self.next_session = self.next_session + 1;
        self.sessions.push(
            Session {
                id,
                addr,
                peer: Option::None,
                outbound: false,
                state: SessionState::Handshaking,
                state_since: now,
                last_active: now,
                got_ready: false,
            },
        );
        self.outbox.push(
            Action::Write {
                id,
                msg: Message::Handshake {
                    node: self.local,
                    version: self.config.protocol_version,
                    timestamp: now,
                    signature: Signature(0),
                },
            },
        );
        proof {
            let n = old(self).sessions@.len() as int;
            assert forall|a: int, b: int|
                0 <= a < self.sessions@.len() && 0 <= b < self.sessions@.len() && a != b implies (
            #[trigger] self.sessions@[a]).id != (#[trigger] self.sessions@[b]).id by {
                if a == n || b == n {
                    let other = if a == n { b } else { a };
                    assert(self.sessions@[other] == old(self).sessions@[other]);
                }
            }
            lemma_sid_at(self.sessions@, n);
            assert forall|id2: u64| id2 != id implies self.session_of(id2) == old(self).session_of(
                id2,
            ) by {
                if has_sid(old(self).sessions@, id2) {
                    let j = sid_index(old(self).sessions@, id2);
                    lemma_sid_at(old(self).sessions@, j);
                    lemma_sid_at(self.sessions@, j);
                } else {
                    if has_sid(self.sessions@, id2) {
                        let j = sid_index(self.sessions@, id2);
                        assert(self.sessions@[j].id == id2);
                        assert(j != n);
                        assert(old(self).sessions@[j].id == id2);
                    }
                }
            }
        }
        id
    }

    /// An outbound dial's stream is connected: the session leaves
    /// `Connecting`, and this node's greeting goes out. A connection in any
    /// other state, or an unknown one, is left alone.
    pub fn connected(&mut self, id: u64, now: u64)
        requires
            old(self).wf(),
        ensures
            final(self).wf(),
            final(self).same_env(*old(self)),
            final(self).routing == old(self).routing,
            final(self).addresses == old(self).addresses,
            final(self).dropped_frames == old(self).dropped_frames,
            (match old(self).session_of(id) {
                Some(s) => {
                    &&& (s.state == SessionState::Connecting ==> {
                        &&& final(self).sessions@ == old(self).sessions@.update(
                            sid_index(old(self).sessions@, id),
                            (Session {
                                state: SessionState::Handshaking,
                                state_since: now,
                                ..s
                            }),
                        )
                        &&& final(self).session_of(id) == Some(
                            (Session { state: SessionState::Handshaking, state_since: now, ..s }),
                        )
                        &&& final(self).outbox@ == old(self).outbox@.push(
                            Action::Write {
                                id,
                                msg: greeting(
                                    old(self).local,
                                    old(self).config.protocol_version,
                                    now,
                                ),
                            },
                        )
                    })
                    &&& (s.state != SessionState::Connecting ==> *final(self) == *old(self))
                },
                Option::None => *final(self) == *old(self),
            }),
    {
        let found = self.find_session(id);
        let i: usize = match found {
            Some(k) => k,
            Option::None => {
                return ;
            },
        };
        let s = self.sessions[i];
        let connecting = match s.state {
            SessionState::Connecting => true,
            _ => false,
        };
        if !connecting {
            return ;
        }
        self.sessions.set(i, Session { state: SessionState::Handshaking, state_since: now, ..s });
        self.outbox.push(
            Action::Write {
                id,
                msg: Message::Handshake {
                    node: self.local,
                    version: self.config.protocol_version,
                    timestamp: now,
                    signature: Signature(0),
                },
            },
        );
        proof {
            lemma_sid_update(old(self).sessions@, self.sessions@, i as int);
            assert forall|k: int|
                0 <= k < self.sessions@.len() implies (#[trigger] self.sessions@[k]).id
                < self.next_session by {
                assert(self.sessions@[k].id == old(self).sessions@[k].id);
            }
        }
    }

    /// The runtime tore connection `id` down for `reason`: the session is
    /// closed. An outbound session that never became ready scores a failed
    /// attempt against the dialed address — `attempts` is bumped,
    /// `last_success` untouched; a session that was ready publishes the
    /// peer's departure.
    pub fn disconnected(&mut self, id: u64, reason: DisconnectReason, now: u64)
        requires
            old(self).wf(),
        ensures
            final(self).wf(),
            final(self).same_env(*old(self)),
            final(self).routing == old(self).routing,
            final(self).dropped_frames == old(self).dropped_frames,
            (match old(self).session_of(id) {
                Option::None => *final(self) == *old(self),
                Some(s) => {
                    &&& (s.state == SessionState::Closed ==> *final(self) == *old(self))
                    &&& (s.state != SessionState::Closed ==> {
                        &&& final(self).sessions@ == old(self).sessions@.update(
                            sid_index(old(self).sessions@, id),
                            (Session { state: SessionState::Closed, state_since: now, ..s }),
                        )
                        &&& final(self).session_of(id) == Some(
                            (Session { state: SessionState::Closed, state_since: now, ..s }),
                        )
                        &&& (match s.peer {
                            Some(p) => {
                                &&& (s.outbound && !s.got_ready ==> {
                                    &&& final(self).addresses.lookup(p, s.addr) == Some(
                                        attempted(
                                            old(self).addresses.lookup(p, s.addr),
                                            p,
                                            s.addr,
                                            false,
                                            now,
                                        ),
                                    )
                                    &&& forall|n2: NodeId, a2: HostAddr|
                                        !(n2 == p && a2 == s.addr) ==> final(self).addresses.lookup(n2, a2) == old(self).addresses.lookup(
                                            n2,
                                            a2,
                                        )
                                })
                                &&& (!(s.outbound && !s.got_ready) ==> final(self).addresses == old(self).addresses)
                                &&& (s.got_ready ==> final(self).outbox@ == old(self).outbox@.push(
                                    Action::Emit {
                                        event: Event::PeerDisconnected { peer: p, reason },
                                    },
                                ))
                                &&& (!s.got_ready ==> final(self).outbox@ == old(self).outbox@)
                            },
                            Option::None => {
                                &&& final(self).addresses == old(self).addresses
                                &&& final(self).outbox@ == old(self).outbox@
                            },
                        })
                    })
                },
            }),
    {
        let found = self.find_session(id);
        let i: usize = match found {
            Some(k) => k,
            Option::None => {
                return ;
            },
        };
        let s = self.sessions[i];
        let closed = match s.state {
            SessionState::Closed => true,
            _ => false,
        };
        if closed {
            return ;
        }
        self.sessions.set(i, Session { state: SessionState::Closed, state_since: now, ..s });
        match s.peer {
            Some(p) => {
                if s.outbound && !s.got_ready {
                    self.addresses.record_attempt(p, s.addr, false, now);
                }
                if s.got_ready {
                    self.outbox.push(
                        Action::Emit { event: Event::PeerDisconnected { peer: p, reason } },
                    );
                }
            },
            Option::None => {},
        }
        proof {
            lemma_sid_update(old(self).sessions@, self.sessions@, i as int);
            assert forall|k: int|
                0 <= k < self.sessions@.len() implies (#[trigger] self.sessions@[k]).id
                < self.next_session by {
                assert(self.sessions@[k].id == old(self).sessions@[k].id);
            }
        }
    }

    /// The clock reads `now`: every session that overran its handshake
    /// timeout or its idle cutoff starts disconnecting — one [`ticked`] step
    /// per session — and for each, the runtime is asked to close the
    /// stream. Stores are never touched by time alone.
    pub fn tick(&mut self, now: u64)
        requires
            old(self).wf(),
        ensures
            final(self).wf(),
            final(self).same_env(*old(self)),
            final(self).routing == old(self).routing,
            final(self).addresses == old(self).addresses,
            final(self).dropped_frames == old(self).dropped_frames,
            final(self).sessions@.len() == old(self).sessions@.len(),
            forall|j: int|
                0 <= j < old(self).sessions@.len() ==> final(self).sessions@[j] == ticked(
                    old(self).sessions@[j],
                    now,
                    old(self).config,
                ),
            old(self).outbox@.is_prefix_of(final(self).outbox@),
            forall|k: int|
                old(self).outbox@.len() <= k < final(self).outbox@.len() ==> (match #[trigger] final(self).outbox@[k] {
                    Action::Disconnect { .. } => true,
                    _ => false,
                }),
            forall|j: int|
                0 <= j < old(self).sessions@.len() && ticked(
                    old(self).sessions@[j],
                    now,
                    old(self).config,
                ) != old(self).sessions@[j] ==> final(self).outbox@.contains(
                    Action::Disconnect {
                        id: (#[trigger] old(self).sessions@[j]).id,
                        reason: tick_reason(old(self).sessions@[j]),
                    },
                ),
    {
        let n = self.sessions.len();
        let mut i: usize = 0;
        while i < n
            invariant
                n == old(self).sessions@.len(),
                i <= n,
                self.sessions@.len() == n,
                self.config == old(self).config,
                self.clock == old(self).clock,
                self.local == old(self).local,
                self.phase == old(self).phase,
                self.next_session == old(self).next_session,
                self.interests@ == old(self).interests@,
                self.routing == old(self).routing,
                self.addresses == old(self).addresses,
                self.dropped_frames == old(self).dropped_frames,
                forall|j: int|
                    0 <= j < i ==> self.sessions@[j] == ticked(
                        old(self).sessions@[j],
                        now,
                        old(self).config,
                    ),
                forall|j: int| i <= j < n ==> self.sessions@[j] == old(self).sessions@[j],
                old(self).outbox@.is_prefix_of(self.outbox@),
                forall|k: int|
                    old(self).outbox@.len() <= k < self.outbox@.len() ==> (match #[trigger] self.outbox@[k] {
                        Action::Disconnect { .. } => true,
                        _ => false,
                    }),
                forall|j: int|
                    0 <= j < i && ticked(old(self).sessions@[j], now, old(self).config) != old(self).sessions@[j] ==> self.outbox@.contains(
                        Action::Disconnect {
                            id: (#[trigger] old(self).sessions@[j]).id,
                            reason: tick_reason(old(self).sessions@[j]),
                        },
                    ),
            decreases n - i,
        {
            let s = self.sessions[i];
            let hs_timed = match s.state {
                SessionState::Handshaking => now > self.config.handshake_timeout && s.state_since
                    < now - self.config.handshake_timeout,
                _ => false,
            };
            let idle_timed = match s.state {
                SessionState::Ready => now > self.config.idle_timeout && s.last_active < now
                    - self.config.idle_timeout,
                _ => false,
            };
            proof {
                assert(hs_timed == (s.state == SessionState::Handshaking && s.state_since
                    + self.config.handshake_timeout < now));
                assert(idle_timed == (s.state == SessionState::Ready && s.last_active
                    + self.config.idle_timeout < now));
            }
            if hs_timed || idle_timed {
                self.sessions.set(
                    i,
                    Session { state: SessionState::Disconnecting, state_since: now, ..s },
                );
                let reason = if hs_timed {
                    DisconnectReason::HandshakeTimeout
                } else {
                    DisconnectReason::Idle
                };
                let ghost preout = self.outbox@;
                self.outbox.push(Action::Disconnect { id: s.id, reason });
                proof {
                    assert(self.outbox@ == preout.push(Action::Disconnect { id: s.id, reason }));
                    assert forall|j: int|
                        0 <= j < i + 1 && ticked(old(self).sessions@[j], now, old(self).config)
                            != old(self).sessions@[j] implies self.outbox@.contains(
                        Action::Disconnect {
                            id: (#[trigger] old(self).sessions@[j]).id,
                            reason: tick_reason(old(self).sessions@[j]),
                        },
                    ) by {
                        if j < i {
                            let a = Action::Disconnect {
                                id: old(self).sessions@[j].id,
                                reason: tick_reason(old(self).sessions@[j]),
                            };
                            let q = choose|q: int| 0 <= q < preout.len() && preout[q] == a;
                            assert(self.outbox@[q] == a);
                        } else {
                            assert(self.outbox@[preout.len() as int] == Action::Disconnect {
                                id: s.id,
                                reason,
                            });
                        }
                    }
                }
            }
            i = i + 1;
        }
        proof {
            assert forall|a: int, b: int|
                0 <= a < self.sessions@.len() && 0 <= b < self.sessions@.len() && a != b implies (
            #[trigger] self.sessions@[a]).id != (#[trigger] self.sessions@[b]).id by {
                assert(self.sessions@[a].id == old(self).sessions@[a].id);
                assert(self.sessions@[b].id == old(self).sessions@[b].id);
            }
            assert forall|k: int|
                0 <= k < self.sessions@.len() implies (#[trigger] self.sessions@[k]).id
                < self.next_session by {
                assert(self.sessions@[k].id == old(self).sessions@[k].id);
            }
        }
    }
}

} // verus!

verus! {

/// Some ready session is connected to peer `p`.
pub open spec fn is_ready_peer(s: Seq<Session>, p: NodeId) -> bool {
    exists|j: int|
        0 <= j < s.len() && (#[trigger] s[j]).state == SessionState::Ready && s[j].peer == Some(p)
}

/// `out` answers a list-peers query against the sessions `s`: exactly the
/// identities some ready session is connected to.
pub open spec fn peers_answer(s: Seq<Session>, out: Seq<NodeId>) -> bool {
    &&& forall|k: int| 0 <= k < out.len() ==> is_ready_peer(s, #[trigger] out[k])
    &&& forall|j: int|
        0 <= j < s.len() && (#[trigger] s[j]).state == SessionState::Ready ==> (match s[j].peer {
            Some(p) => out.contains(p),
            Option::None => true,
        })
}

/// `out` answers a list-routes query for `resource` against the table `t` at
/// `now`: exactly the providers of live claims, each once.
pub open spec fn providers_answer(
    t: Table,
    now: u64,
    ttl: u64,
    resource: ResourceId,
    out: Seq<NodeId>,
) -> bool {
    &&& forall|k: int|
        0 <= k < out.len() ==> {
            let found = t.lookup(resource, #[trigger] out[k]);
            found is Some && !crate::clock::expired(found.unwrap(), now, ttl)
        }
    &&& forall|p: NodeId|
        ((#[trigger] t.lookup(resource, p)) matches Some(ts) && !crate::clock::expired(
            ts,
            now,
            ttl,
        )) ==> out.contains(p)
    &&& forall|k1: int, k2: int| 0 <= k1 < k2 < out.len() ==> out[k1] != out[k2]
}

/// The whole effect of consuming one command: outside the running phase
/// nothing at all changes — a second shutdown request cannot tear anything
/// down twice — and in it, each command's exact step.
pub open spec fn command_step(pre: Service, post: Service, cmd: Command, now: u64) -> bool {
    &&& (pre.phase != Phase::Running ==> post == pre)
    &&& (pre.phase == Phase::Running ==> (match cmd {
            Command::Connect { node, addr } => {
                &&& post.sessions@ == pre.sessions@.push(
                    dialing(pre.next_session, node, addr, now),
                )
                &&& post.session_of(pre.next_session) == Some(
                    dialing(pre.next_session, node, addr, now),
                )
                &&& post.next_session == pre.next_session + 1
                &&& post.outbox@ == pre.outbox@.push(
                    Action::Dial { id: pre.next_session, addr },
                )
                &&& post.routing == pre.routing
                &&& post.addresses == pre.addresses
                &&& post.interests@ == pre.interests@
                &&& post.phase == Phase::Running
                &&& post.dropped_frames == pre.dropped_frames
            },
            Command::Track { resource } => {
                &&& post.interests@ == (if pre.interests@.contains(resource) {
                    pre.interests@
                } else {
                    pre.interests@.push(resource)
                })
                &&& post.interests@.contains(resource)
                &&& post.routing.lookup(resource, pre.local) == Some(
                    merged(pre.routing.lookup(resource, pre.local), now),
                )
                &&& forall|r2: ResourceId, p2: NodeId|
                    !(r2 == resource && p2 == pre.local) ==> post.routing.lookup(
                        r2,
                        p2,
                    ) == pre.routing.lookup(r2, p2)
                &&& post.addresses == pre.addresses
                &&& post.sessions@ == pre.sessions@
                &&& post.phase == Phase::Running
                &&& post.dropped_frames == pre.dropped_frames
                &&& pre.outbox@.is_prefix_of(post.outbox@)
                &&& forall|k: int|
                    pre.outbox@.len() <= k < post.outbox@.len() ==> (
                    match #[trigger] post.outbox@[k] {
                        Action::Emit { event } => event == (Event::RoutingUpdated {
                            resource,
                            provider: pre.local,
                        }),
                        Action::Write { id, msg } => msg == ann_msg(
                            resource,
                            pre.local,
                            now,
                        ) && (lookup_sid(pre.sessions@, id) matches Some(s) && s.state
                            == SessionState::Ready),
                        _ => false,
                    })
            },
            Command::Untrack { resource } => {
                &&& !post.interests@.contains(resource)
                &&& forall|r2: ResourceId|
                    r2 != resource ==> (post.interests@.contains(r2) <==> pre.interests@.contains(r2))
                &&& post.routing == pre.routing
                &&& post.addresses == pre.addresses
                &&& post.sessions@ == pre.sessions@
                &&& post.outbox@ == pre.outbox@
                &&& post.phase == Phase::Running
                &&& post.next_session == pre.next_session
                &&& post.dropped_frames == pre.dropped_frames
            },
            Command::Shutdown => {
                &&& post.phase == Phase::ShuttingDown
                &&& post.sessions@.len() == pre.sessions@.len()
                &&& forall|j: int|
                    0 <= j < pre.sessions@.len() ==> post.sessions@[j] == shut(
                        pre.sessions@[j],
                        now,
                    )
                &&& post.routing == pre.routing
                &&& post.addresses == pre.addresses
                &&& post.interests@ == pre.interests@
                &&& post.next_session == pre.next_session
                &&& post.dropped_frames == pre.dropped_frames
                &&& pre.outbox@.is_prefix_of(post.outbox@)
                &&& forall|k: int|
                    pre.outbox@.len() <= k < post.outbox@.len() ==> (
                    match #[trigger] post.outbox@[k] {
                        Action::Disconnect { id: _, reason } => reason
                            == DisconnectReason::Requested,
                        _ => false,
                    })
            },
            Command::ListPeers => {
                &&& post.outbox@.len() == pre.outbox@.len() + 1
                &&& pre.outbox@.is_prefix_of(post.outbox@)
                &&& (match post.outbox@.last() {
                    Action::Respond { reply } => (match reply {
                        QueryReply::Peers { peers } => peers_answer(pre.sessions@, peers@),
                        _ => false,
                    }),
                    _ => false,
                })
                &&& post.routing == pre.routing
                &&& post.addresses == pre.addresses
                &&& post.sessions@ == pre.sessions@
                &&& post.interests@ == pre.interests@
                &&& post.phase == Phase::Running
                &&& post.next_session == pre.next_session
                &&& post.dropped_frames == pre.dropped_frames
            },
            Command::ListRoutes { resource } => {
                &&& post.outbox@.len() == pre.outbox@.len() + 1
                &&& pre.outbox@.is_prefix_of(post.outbox@)
                &&& (match post.outbox@.last() {
                    Action::Respond { reply } => (match reply {
                        QueryReply::Routes { resource: r2, providers } => r2 == resource
                            && providers_answer(
                            pre.routing,
                            pre.clock.spec_now(),
                            pre.config.routing_ttl,
                            resource,
                            providers@,
                        ),
                        _ => false,
                    }),
                    _ => false,
                })
                &&& post.routing == pre.routing
                &&& post.addresses == pre.addresses
                &&& post.sessions@ == pre.sessions@
                &&& post.interests@ == pre.interests@
                &&& post.phase == Phase::Running
                &&& post.next_session == pre.next_session
                &&& post.dropped_frames == pre.dropped_frames
            },
        }))
}

impl Service {
    /// Consume one externally issued command. Commands are acted on only in
    /// the running phase; in any other phase they change nothing at all, so
    /// a second shutdown request after the first is a no-op — it cannot
    /// tear anything down twice.
    pub fn command(&mut self, cmd: Command, now: u64)
        requires
            old(self).wf(),
            old(self).next_session < u64::MAX,
        ensures
            final(self).wf(),
            command_step(*old(self), *final(self), cmd, now),
    {
        let running = match self.phase {
            Phase::Running => true,
            _ => false,
        };
        if !running {
            return ;
        }
        match cmd {
            Command::Connect { node, addr } => {
                let id = self.next_session;
                self.next_session = self.next_session + 1;
                self.sessions.push(
                    Session {
                        id,
                        addr,
                        peer: Some(node),
                        outbound: true,
                        state: SessionState::Connecting,
                        state_since: now,
                        last_active: now,
                        got_ready: false,
                    },
                );
                self.outbox.push(Action::Dial { id, addr });
                proof {
                    let n = old(self).sessions@.len() as int;
                    assert forall|a: int, b: int|
                        0 <= a < self.sessions@.len() && 0 <= b < self.sessions@.len() && a != b
                        implies (#[trigger] self.sessions@[a]).id != (
                    #[trigger] self.sessions@[b]).id by {
                        if a == n || b == n {
                            let other = if a == n {
                                b
                            } else {
                                a
                            };
                            assert(self.sessions@[other] == old(self).sessions@[other]);
                        }
                    }
                    lemma_sid_at(self.sessions@, n);
                    assert(self.sessions@ == old(self).sessions@.push(
                        dialing(old(self).next_session, node, addr, now),
                    ));
                    assert(self.sessions@[n] == dialing(old(self).next_session, node, addr, now));
                }
            },
            Command::Track { resource } => {
                if !self.is_tracked(resource) {
                    self.interests.push(resource);
                }
                proof {
                    if old(self).interests@.contains(resource) {
                        let q = choose|q: int|
                            0 <= q < old(self).interests@.len() && old(self).interests@[q]
                                == resource;
                        assert(self.interests@[q] == resource);
                    } else {
                        assert(self.interests@[old(self).interests@.len() as int] == resource);
                    }
                    assert(self.interests@.contains(resource));
                }
                let updated = self.routing.insert(resource, self.local, now);
                let ghost preout = self.outbox@;
                if updated {
                    self.outbox.push(
                        Action::Emit {
                            event: Event::RoutingUpdated { resource, provider: self.local },
                        },
                    );
                }
                let ghost midout = self.outbox@;
                self.fan_out(resource, now);
                proof {
                    assert(preout.is_prefix_of(midout));
                    assert(midout.is_prefix_of(self.outbox@));
                    assert forall|k: int|
                        preout.len() <= k < self.outbox@.len() implies (
                    match #[trigger] self.outbox@[k] {
                        Action::Emit { event } => event == (Event::RoutingUpdated {
                            resource,
                            provider: old(self).local,
                        }),
                        Action::Write { id, msg } => msg == ann_msg(
                            resource,
                            old(self).local,
                            now,
                        ) && (lookup_sid(old(self).sessions@, id) matches Some(s) && s.state
                            == SessionState::Ready),
                        _ => false,
                    }) by {
                        if k < midout.len() {
                            assert(self.outbox@[k] == midout[k]);
                        }
                    }
                }
            },
            Command::Untrack { resource } => {
                let n = self.interests.len();
                let mut kept: Vec<ResourceId> = Vec::new();
                let mut i: usize = 0;
                while i < n
                    invariant
                        n == self.interests@.len(),
                        i <= n,
                        forall|k: int| 0 <= k < kept@.len() ==> #[trigger] kept@[k] != resource,
                        forall|k: int|
                            0 <= k < kept@.len() ==> self.interests@.contains(#[trigger] kept@[k]),
                        forall|j: int|
                            0 <= j < i && #[trigger] self.interests@[j] != resource
                                ==> kept@.contains(self.interests@[j]),
                    decreases n - i,
                {
                    let r = self.interests[i];
                    if r != resource {
                        let ghost pre = kept@;
                        kept.push(r);
                        proof {
                            assert(kept@ == pre.push(r));
                            assert(self.interests@.contains(self.interests@[i as int]));
                            assert forall|j: int|
                                0 <= j < i + 1 && #[trigger] self.interests@[j] != resource
                                    implies kept@.contains(self.interests@[j]) by {
                                if j < i {
                                    let q = choose|q: int|
                                        0 <= q < pre.len() && pre[q] == self.interests@[j];
                                    assert(kept@[q] == self.interests@[j]);
                                } else {
                                    assert(kept@[pre.len() as int] == self.interests@[j]);
                                }
                            }
                        }
                    }
                    i = i + 1;
                }
                self.interests = kept;
                proof {
                    if self.interests@.contains(resource) {
                        let k = choose|k: int|
                            0 <= k < self.interests@.len() && self.interests@[k] == resource;
                        assert(false);
                    }
                    assert forall|r2: ResourceId|
                        r2 != resource implies (self.interests@.contains(r2) <==> old(self).interests@.contains(r2)) by {
                        if old(self).interests@.contains(r2) {
                            let j = choose|j: int|
                                0 <= j < old(self).interests@.len() && old(self).interests@[j]
                                    == r2;
                            assert(old(self).interests@[j] != resource);
                            assert(self.interests@.contains(old(self).interests@[j]));
                        }
                        if self.interests@.contains(r2) {
                            let k = choose|k: int|
                                0 <= k < self.interests@.len() && self.interests@[k] == r2;
                            assert(old(self).interests@.contains(self.interests@[k]));
                        }
                    }
                }
            },
            Command::ListPeers => {
                let p = self.peers();
                proof {
                    assert(peers_answer(self.sessions@, p@));
                }
                let ghost preout = self.outbox@;
                self.outbox.push(Action::Respond { reply: QueryReply::Peers { peers: p } });
                proof {
                    assert(self.outbox@ =~= preout.push(
                        Action::Respond { reply: QueryReply::Peers { peers: p } },
                    ));
                    assert(preout.is_prefix_of(self.outbox@));
                }
            },
            Command::ListRoutes { resource } => {
                let provs = self.providers(resource);
                proof {
                    assert(providers_answer(
                        self.routing,
                        self.clock.spec_now(),
                        self.config.routing_ttl,
                        resource,
                        provs@,
                    ));
                }
                let ghost preout = self.outbox@;
                self.outbox.push(
                    Action::Respond { reply: QueryReply::Routes { resource, providers: provs } },
                );
                proof {
                    assert(self.outbox@ =~= preout.push(
                        Action::Respond { reply: QueryReply::Routes { resource, providers: provs } },
                    ));
                    assert(preout.is_prefix_of(self.outbox@));
                }
            },
            Command::Shutdown => {
                self.phase = Phase::ShuttingDown;
                let n = self.sessions.len();
                let mut i: usize = 0;
                while i < n
                    invariant
                        n == old(self).sessions@.len(),
                        i <= n,
                        self.sessions@.len() == n,
                        self.config == old(self).config,
                        self.clock == old(self).clock,
                        self.local == old(self).local,
                        self.phase == Phase::ShuttingDown,
                        self.next_session == old(self).next_session,
                        self.interests@ == old(self).interests@,
                        self.routing == old(self).routing,
                        self.addresses == old(self).addresses,
                        self.dropped_frames == old(self).dropped_frames,
                        forall|j: int|
                            0 <= j < i ==> self.sessions@[j] == shut(old(self).sessions@[j], now),
                        forall|j: int| i <= j < n ==> self.sessions@[j] == old(self).sessions@[j],
                        old(self).outbox@.is_prefix_of(self.outbox@),
                        forall|k: int|
                            old(self).outbox@.len() <= k < self.outbox@.len() ==> (
                            match #[trigger] self.outbox@[k] {
                                Action::Disconnect { id: _, reason } => reason
                                    == DisconnectReason::Requested,
                                _ => false,
                            }),
                    decreases n - i,
                {
                    let s = self.sessions[i];
                    let live = match s.state {
                        SessionState::Connecting => true,
                        SessionState::Handshaking => true,
                        SessionState::Ready => true,
                        _ => false,
                    };
                    if live {
                        self.sessions.set(
                            i,
                            Session { state: SessionState::Disconnecting, state_since: now, ..s },
                        );
                        self.outbox.push(
                            Action::Disconnect { id: s.id, reason: DisconnectReason::Requested },
                        );
                    }
                    i = i + 1;
                }
                proof {
                    assert forall|a: int, b: int|
                        0 <= a < self.sessions@.len() && 0 <= b < self.sessions@.len() && a != b
                        implies (#[trigger] self.sessions@[a]).id != (
                    #[trigger] self.sessions@[b]).id by {
                        assert(self.sessions@[a].id == old(self).sessions@[a].id);
                        assert(self.sessions@[b].id == old(self).sessions@[b].id);
                    }
                    assert forall|k: int|
                        0 <= k < self.sessions@.len() implies (#[trigger] self.sessions@[k]).id
                        < self.next_session by {
                        assert(self.sessions@[k].id == old(self).sessions@[k].id);
                    }
                }
            },
        }
    }

    /// Re-announce every tracked resource to a bounded subset of ready
    /// peers: the periodic gossip. Only such announcements are appended.
    pub fn announce(&mut self, now: u64)
        requires
            old(self).wf(),
        ensures
            final(self).wf(),
            final(self).same_env(*old(self)),
            final(self).routing == old(self).routing,
            final(self).addresses == old(self).addresses,
            final(self).sessions@ == old(self).sessions@,
            final(self).dropped_frames == old(self).dropped_frames,
            old(self).outbox@.is_prefix_of(final(self).outbox@),
            forall|k: int|
                old(self).outbox@.len() <= k < final(self).outbox@.len() ==> (
                match #[trigger] final(self).outbox@[k] {
                    Action::Write { id, msg } => (exists|r: ResourceId|
                        old(self).interests@.contains(r) && msg == ann_msg(
                            r,
                            old(self).local,
                            now,
                        )) && (lookup_sid(old(self).sessions@, id) matches Some(s) && s.state
                        == SessionState::Ready),
                    _ => false,
                }),
    {
        let n = self.interests.len();
        let mut i: usize = 0;
        while i < n
            invariant
                n == self.interests@.len(),
                i <= n,
                self.wf(),
                self.config == old(self).config,
                self.clock == old(self).clock,
                self.local == old(self).local,
                self.phase == old(self).phase,
                self.next_session == old(self).next_session,
                self.interests@ == old(self).interests@,
                self.routing == old(self).routing,
                self.addresses == old(self).addresses,
                self.sessions@ == old(self).sessions@,
                self.dropped_frames == old(self).dropped_frames,
                old(self).outbox@.is_prefix_of(self.outbox@),
                forall|k: int|
                    old(self).outbox@.len() <= k < self.outbox@.len() ==> (
                    match #[trigger] self.outbox@[k] {
                        Action::Write { id, msg } => (exists|r: ResourceId|
                            old(self).interests@.contains(r) && msg == ann_msg(
                                r,
                                old(self).local,
                                now,
                            )) && (lookup_sid(old(self).sessions@, id) matches Some(s) && s.state
                            == SessionState::Ready),
                        _ => false,
                    }),
            decreases n - i,
        {
            let r = self.interests[i];
            let ghost preout = self.outbox@;
            self.fan_out(r, now);
            proof {
                assert(self.interests@.contains(self.interests@[i as int]));
                assert forall|k: int|
                    old(self).outbox@.len() <= k < self.outbox@.len() implies (
                match #[trigger] self.outbox@[k] {
                    Action::Write { id, msg } => (exists|r2: ResourceId|
                        old(self).interests@.contains(r2) && msg == ann_msg(
                            r2,
                            old(self).local,
                            now,
                        )) && (lookup_sid(old(self).sessions@, id) matches Some(s) && s.state
                        == SessionState::Ready),
                    _ => false,
                }) by {
                    if k < preout.len() {
                        assert(self.outbox@[k] == preout[k]);
                    }
                }
            }
            i = i + 1;
        }
    }

    /// The identities of the peers whose connections are ready.
    pub fn peers(&self) -> (out: Vec<NodeId>)
        requires
            self.wf(),
        ensures
            forall|k: int|
                0 <= k < out@.len() ==> is_ready_peer(self.sessions@, #[trigger] out@[k]),
            forall|j: int|
                0 <= j < self.sessions@.len() && (#[trigger] self.sessions@[j]).state
                    == SessionState::Ready ==> (match self.sessions@[j].peer {
                    Some(p) => out@.contains(p),
                    Option::None => true,
                }),
            peers_answer(self.sessions@, out@),
    {
        let n = self.sessions.len();
        let mut out: Vec<NodeId> = Vec::new();
        let mut i: usize = 0;
        while i < n
            invariant
                n == self.sessions@.len(),
                i <= n,
                forall|k: int|
                    0 <= k < out@.len() ==> is_ready_peer(self.sessions@, #[trigger] out@[k]),
                forall|j: int|
                    0 <= j < i && (#[trigger] self.sessions@[j]).state == SessionState::Ready
                        ==> (match self.sessions@[j].peer {
                        Some(p) => out@.contains(p),
                        Option::None => true,
                    }),
            decreases n - i,
        {
            let s = self.sessions[i];
            let is_ready = match s.state {
                SessionState::Ready => true,
                _ => false,
            };
            if is_ready {
                match s.peer {
                    Some(p) => {
                        let ghost pre = out@;
                        out.push(p);
                        proof {
                            assert(out@ == pre.push(p));
                            assert(self.sessions@[i as int].state == SessionState::Ready
                                && self.sessions@[i as int].peer == Some(p));
                            assert(is_ready_peer(self.sessions@, p));
                            assert forall|k: int|
                                0 <= k < out@.len() implies is_ready_peer(
                                self.sessions@,
                                #[trigger] out@[k],
                            ) by {
                                if k < pre.len() {
                                    assert(out@[k] == pre[k]);
                                } else {
                                    assert(out@[k] == p);
                                }
                            }
                            assert forall|j: int|
                                0 <= j < i + 1 && (#[trigger] self.sessions@[j]).state
                                    == SessionState::Ready implies (match self.sessions@[j].peer {
                                Some(p2) => out@.contains(p2),
                                Option::None => true,
                            }) by {
                                match self.sessions@[j].peer {
                                    Some(p2) => {
                                        if j < i {
                                            let q = choose|q: int|
                                                0 <= q < pre.len() && pre[q] == p2;
                                            assert(out@[q] == p2);
                                        } else {
                                            assert(out@[pre.len() as int] == p2);
                                        }
                                    },
                                    Option::None => {},
                                }
                            }
                        }
                    },
                    Option::None => {},
                }
            }
            i = i + 1;
        }
        out
    }

    /// The providers of `resource` whose claims have not expired, by the
    /// service clock and the configured time-to-live: expiry is enforced at
    /// read time whether or not pruning has run.
    pub fn providers(&self, resource: ResourceId) -> (provs: Vec<NodeId>)
        requires
            self.wf(),
        ensures
            forall|k: int|
                0 <= k < provs@.len() ==> {
                    let found = self.routing.lookup(resource, #[trigger] provs@[k]);
                    found is Some && !crate::clock::expired(
                        found.unwrap(),
                        self.clock.spec_now(),
                        self.config.routing_ttl,
                    )
                },
            forall|p: NodeId|
                ((#[trigger] self.routing.lookup(resource, p)) matches Some(ts) && !crate::clock::expired(
                    ts,
                    self.clock.spec_now(),
                    self.config.routing_ttl,
                )) ==> provs@.contains(p),
            forall|k1: int, k2: int| 0 <= k1 < k2 < provs@.len() ==> provs@[k1] != provs@[k2],
            providers_answer(
                self.routing,
                self.clock.spec_now(),
                self.config.routing_ttl,
                resource,
                provs@,
            ),
    {
        let now = self.clock.now();
        self.routing.providers_of(resource, now, self.config.routing_ttl)
    }
}

} // verus!

verus! {

impl Service {
    /// Discard the sessions the runtime has torn down: a session is dropped
    /// exactly when it reached `Closed`, every other session survives
    /// unchanged, so the session set stays bounded over a long run. Nothing
    /// else is touched.
    pub fn reap(&mut self)
        requires
            old(self).wf(),
        ensures
            final(self).wf(),
            final(self).same_env(*old(self)),
            final(self).routing == old(self).routing,
            final(self).addresses == old(self).addresses,
            final(self).outbox@ == old(self).outbox@,
            final(self).dropped_frames == old(self).dropped_frames,
            forall|id: u64|
                final(self).session_of(id) == (match old(self).session_of(id) {
                    Some(s) => if s.state == SessionState::Closed {
                        Option::<Session>::None
                    } else {
                        Some(s)
                    },
                    Option::None => Option::<Session>::None,
                }),
    {
        let n = self.sessions.len();
        let mut kept: Vec<Session> = Vec::new();
        let mut i: usize = 0;
        while i < n
            invariant
                n == self.sessions@.len(),
                i <= n,
                self.wf(),
                sids_unique(kept@),
                forall|k: int|
                    0 <= k < kept@.len() ==> {
                        let s = #[trigger] kept@[k];
                        lookup_sid(self.sessions@, s.id) == Some(s) && s.state
                            != SessionState::Closed && s.id < self.next_session
                    },
                forall|j: int|
                    0 <= j < i && (#[trigger] self.sessions@[j]).state != SessionState::Closed
                        ==> has_sid(kept@, self.sessions@[j].id),
                forall|k: int|
                    0 <= k < kept@.len() ==> exists|j: int|
                        0 <= j < i && #[trigger] self.sessions@[j] == #[trigger] kept@[k],
            decreases n - i,
        {
            let s = self.sessions[i];
            let closed = match s.state {
                SessionState::Closed => true,
                _ => false,
            };
            if !closed {
                proof {
                    lemma_sid_at(self.sessions@, i as int);
                    if has_sid(kept@, s.id) {
                        let k = sid_index(kept@, s.id);
                        assert(kept@[k].id == s.id);
                        let j = choose|j: int| 0 <= j < i && #[trigger] self.sessions@[j] == kept@[k];
                        assert(self.sessions@[j].id == s.id);
                        assert(false);
                    }
                }
                let ghost pre = kept@;
                kept.push(s);
                proof {
                    let m = pre.len() as int;
                    assert(kept@ == pre.push(s));
                    assert forall|a: int, b: int|
                        0 <= a < kept@.len() && 0 <= b < kept@.len() && a != b implies (
                    #[trigger] kept@[a]).id != (#[trigger] kept@[b]).id by {
                        if a == m || b == m {
                            let other = if a == m { b } else { a };
                            assert(kept@[other] == pre[other]);
                            assert(!has_sid(pre, s.id));
                        } else {
                            assert(kept@[a] == pre[a] && kept@[b] == pre[b]);
                        }
                    }
                    assert forall|j: int|
                        0 <= j < i + 1 && (#[trigger] self.sessions@[j]).state
                            != SessionState::Closed implies has_sid(kept@, self.sessions@[j].id) by {
                        if j < i {
                            let k = sid_index(pre, self.sessions@[j].id);
                            assert(pre[k].id == self.sessions@[j].id);
                            assert(kept@[k].id == self.sessions@[j].id);
                        } else {
                            assert(kept@[m].id == self.sessions@[j].id);
                        }
                    }
                    assert forall|k: int| 0 <= k < kept@.len() implies exists|j: int|
                        0 <= j < i + 1 && #[trigger] self.sessions@[j] == #[trigger] kept@[k] by {
                        if k < m {
                            let j = choose|j: int|
                                0 <= j < i && #[trigger] self.sessions@[j] == pre[k];
                            assert(0 <= j < i + 1 && self.sessions@[j] == kept@[k]);
                        } else {
                            assert(self.sessions@[i as int] == kept@[k]);
                        }
                    }
                }
            }
            i = i + 1;
        }
        proof {
            assert forall|id: u64|
                lookup_sid(kept@, id) == (match lookup_sid(old(self).sessions@, id) {
                    Some(s) => if s.state == SessionState::Closed {
                        Option::<Session>::None
                    } else {
                        Some(s)
                    },
                    Option::None => Option::<Session>::None,
                }) by {
                if has_sid(old(self).sessions@, id) {
                    let j = sid_index(old(self).sessions@, id);
                    assert(old(self).sessions@[j].id == id);
                    lemma_sid_at(old(self).sessions@, j);
                    if old(self).sessions@[j].state != SessionState::Closed {
                        let k = sid_index(kept@, id);
                        assert(kept@[k].id == id);
                        lemma_sid_at(kept@, k);
                    } else {
                        if has_sid(kept@, id) {
                            let k = sid_index(kept@, id);
                            assert(kept@[k].id == id);
                            lemma_sid_at(kept@, k);
                        }
                    }
                } else {
                    if has_sid(kept@, id) {
                        let k = sid_index(kept@, id);
                        assert(kept@[k].id == id);
                    }
                }
            }
        }
        self.sessions = kept;
    }
}

} // verus!
