//! The client runtime: lifecycle, channels and the external handle.
//!
//! A [`Client`] owns the channel endpoints that connect a running node to
//! the outside: an unbounded command queue, a one-slot shutdown signal, a
//! one-slot listen-address notification and a query-reply stream. A
//! [`Handle`] is the cheap, cloneable end other threads hold: it enqueues
//! commands, asks synchronous queries, requests shutdown — idempotently,
//! without ever blocking — and learns the bound listen address. The reactor
//! loop itself (sockets, polling) lives at the edge;
//! [`Client::build_service`] rebuilds the verified service from the
//! persisted store contents the edge read from disk.
//!
//! Channel endpoints are opaque values; which channel an endpoint belongs
//! to, and a bounded channel's capacity, are named by uninterpreted spec
//! functions that the channel wrappers' contracts speak of, so the wiring —
//! the handle's sender feeds the reactor's receiver, the signal slots hold
//! one message — is stated and proved, not assumed.

use vstd::prelude::*;
use crate::address;
use crate::address::KnownAddress;
use crate::clock::Clock;
use crate::ids::{HostAddr, NodeId};
use crate::routing;
use crate::routing::Entry;
use crate::service;
use crate::service::{command_step, Command, QueryReply, Service};

verus! {

/// A client error: a store failed to open, or the node is gone.
#[derive(PartialEq, Eq, Structural, Clone, Copy, Debug)]
pub enum Error {
    /// The routing store's contents are corrupt.
    Routing(routing::Error),
    /// The address store's contents are corrupt.
    Addresses(address::Error),
    /// The node is gone: its end of a channel was dropped.
    Disconnected,
}

/// Client configuration: the service tuning and where to listen.
#[derive(Clone, Debug)]
pub struct Config {
    pub service: service::Config,
    pub listen: Vec<HostAddr>,
}

/// The default listen address: every interface, an ephemeral port.
pub open spec fn spec_any_addr() -> HostAddr {
    HostAddr { ip: 0, port: 0 }
}

impl Config {
    /// A configuration for the given network, otherwise default.
    pub fn new(network: service::Network) -> (c: Config)
        ensures
            c.service == (service::Config { network, ..service::spec_default_config() }),
            c.listen@ =~= seq![spec_any_addr()],
    {
        let mut listen: Vec<HostAddr> = Vec::new();
        listen.push(HostAddr { ip: 0, port: 0 });
        Config { service: service::Config::new(network), listen }
    }
}

impl Default for Config {
    fn default() -> (c: Config)
        ensures
            c.service == service::spec_default_config(),
            c.listen@ =~= seq![spec_any_addr()],
    {
        Config::new(service::Network::Main)
    }
}

/// The event publisher: records what the service emitted, for observers.
/// Publication is fire-and-forget; nothing of the node's correctness rests
/// on it.
pub struct Events {
    pub published: Vec<service::Event>,
}

impl Events {
    /// A publisher that has seen nothing.
    pub fn new() -> (e: Events)
        ensures
            e.published@ =~= Seq::<service::Event>::empty(),
    {
        Events { published: Vec::new() }
    }

    /// Record one published event.
    pub fn publish(&mut self, e: service::Event)
        ensures
            final(self).published@ == old(self).published@.push(e),
    {
        self.published.push(e);
    }
}

#[verifier::external_type_specification]
#[verifier::external_body]
#[verifier::reject_recursive_types(T)]
pub struct ExSender<T>(crossbeam_channel::Sender<T>);

#[verifier::external_type_specification]
#[verifier::external_body]
#[verifier::reject_recursive_types(T)]
pub struct ExReceiver<T>(crossbeam_channel::Receiver<T>);

/// The channel a command sender belongs to.
pub uninterp spec fn cmd_chan_of_sender(s: crossbeam_channel::Sender<Command>) -> int;

/// The channel a command receiver belongs to.
pub uninterp spec fn cmd_chan_of_receiver(r: crossbeam_channel::Receiver<Command>) -> int;

/// The channel a signal sender belongs to.
pub uninterp spec fn sig_chan_of_sender(s: crossbeam_channel::Sender<()>) -> int;

/// The channel a signal receiver belongs to.
pub uninterp spec fn sig_chan_of_receiver(r: crossbeam_channel::Receiver<()>) -> int;

/// The capacity a signal sender's bounded channel was made with.
pub uninterp spec fn sig_cap_of_sender(s: crossbeam_channel::Sender<()>) -> int;

/// The channel an address sender belongs to.
pub uninterp spec fn addr_chan_of_sender(s: crossbeam_channel::Sender<HostAddr>) -> int;

/// The channel an address receiver belongs to.
pub uninterp spec fn addr_chan_of_receiver(r: crossbeam_channel::Receiver<HostAddr>) -> int;

/// The capacity an address sender's bounded channel was made with.
pub uninterp spec fn addr_cap_of_sender(s: crossbeam_channel::Sender<HostAddr>) -> int;

/// The channel a query-reply sender belongs to.
pub uninterp spec fn reply_chan_of_sender(s: crossbeam_channel::Sender<QueryReply>) -> int;

/// The channel a query-reply receiver belongs to.
pub uninterp spec fn reply_chan_of_receiver(r: crossbeam_channel::Receiver<QueryReply>) -> int;

/// Relies on crossbeam_channel::unbounded: a connected sender/receiver pair
/// of one queue without capacity bound; cannot panic.
#[verifier::external_body]
fn chan_unbounded_commands() -> (r: (
    crossbeam_channel::Sender<Command>,
    crossbeam_channel::Receiver<Command>,
))
    ensures
        cmd_chan_of_sender(r.0) == cmd_chan_of_receiver(r.1),
{
    crossbeam_channel::unbounded()
}

/// Relies on crossbeam_channel::unbounded, as above, for query replies.
#[verifier::external_body]
fn chan_unbounded_replies() -> (r: (
    crossbeam_channel::Sender<QueryReply>,
    crossbeam_channel::Receiver<QueryReply>,
))
    ensures
        reply_chan_of_sender(r.0) == reply_chan_of_receiver(r.1),
{
    crossbeam_channel::unbounded()
}

/// Relies on crossbeam_channel::bounded: a connected sender/receiver pair of
/// one queue holding at most `cap` messages. Near the top of the index
/// space the callee panics before allocating; the bound keeps far from it.
#[verifier::external_body]
fn chan_bounded_signal(cap: usize) -> (r: (
    crossbeam_channel::Sender<()>,
    crossbeam_channel::Receiver<()>,
))
    requires
        cap <= 4096,
    ensures
        sig_chan_of_sender(r.0) == sig_chan_of_receiver(r.1),
        sig_cap_of_sender(r.0) == cap,
{
    crossbeam_channel::bounded(cap)
}

/// Relies on crossbeam_channel::bounded, as above, for addresses.
#[verifier::external_body]
fn chan_bounded_addrs(cap: usize) -> (r: (
    crossbeam_channel::Sender<HostAddr>,
    crossbeam_channel::Receiver<HostAddr>,
))
    requires
        cap <= 4096,
    ensures
        addr_chan_of_sender(r.0) == addr_chan_of_receiver(r.1),
        addr_cap_of_sender(r.0) == cap,
{
    crossbeam_channel::bounded(cap)
}

/// Relies on crossbeam_channel's `Clone for Sender`: another sender of the
/// same channel.
#[verifier::external_body]
fn clone_cmd_sender(s: &crossbeam_channel::Sender<Command>) -> (r: crossbeam_channel::Sender<Command>)
    ensures
        cmd_chan_of_sender(r) == cmd_chan_of_sender(*s),
{
    s.clone()
}

/// Relies on crossbeam_channel's `Clone for Sender`: another sender of the
/// same channel, with the same capacity.
#[verifier::external_body]
fn clone_sig_sender(s: &crossbeam_channel::Sender<()>) -> (r: crossbeam_channel::Sender<()>)
    ensures
        sig_chan_of_sender(r) == sig_chan_of_sender(*s),
        sig_cap_of_sender(r) == sig_cap_of_sender(*s),
{
    s.clone()
}

/// Relies on crossbeam_channel's `Clone for Sender`: another sender of the
/// same channel.
#[verifier::external_body]
fn clone_addr_sender(s: &crossbeam_channel::Sender<HostAddr>) -> (r: crossbeam_channel::Sender<
    HostAddr,
>)
    ensures
        addr_chan_of_sender(r) == addr_chan_of_sender(*s),
        addr_cap_of_sender(r) == addr_cap_of_sender(*s),
{
    s.clone()
}

/// Relies on crossbeam_channel's `Clone for Receiver`: another receiver of
/// the same channel.
#[verifier::external_body]
fn clone_cmd_receiver(r: &crossbeam_channel::Receiver<Command>) -> (c: crossbeam_channel::Receiver<
    Command,
>)
    ensures
        cmd_chan_of_receiver(c) == cmd_chan_of_receiver(*r),
{
    r.clone()
}

/// Relies on crossbeam_channel's `Clone for Receiver`: another receiver of
/// the same channel.
#[verifier::external_body]
fn clone_sig_receiver(r: &crossbeam_channel::Receiver<()>) -> (c: crossbeam_channel::Receiver<()>)
    ensures
        sig_chan_of_receiver(c) == sig_chan_of_receiver(*r),
{
    r.clone()
}

/// Relies on crossbeam_channel's `Clone for Receiver`: another receiver of
/// the same channel.
#[verifier::external_body]
fn clone_addr_receiver(r: &crossbeam_channel::Receiver<HostAddr>) -> (c: crossbeam_channel::Receiver<
    HostAddr,
>)
    ensures
        addr_chan_of_receiver(c) == addr_chan_of_receiver(*r),
{
    r.clone()
}

/// Relies on crossbeam_channel's `Clone for Receiver`: another receiver of
/// the same channel.
#[verifier::external_body]
fn clone_reply_receiver(r: &crossbeam_channel::Receiver<QueryReply>) -> (c: crossbeam_channel::Receiver<
    QueryReply,
>)
    ensures
        reply_chan_of_receiver(c) == reply_chan_of_receiver(*r),
{
    r.clone()
}

/// Relies on crossbeam_channel's `Clone for Sender`: another sender of the
/// same channel.
#[verifier::external_body]
fn clone_reply_sender(s: &crossbeam_channel::Sender<QueryReply>) -> (r: crossbeam_channel::Sender<
    QueryReply,
>)
    ensures
        reply_chan_of_sender(r) == reply_chan_of_sender(*s),
{
    s.clone()
}

/// Relies on crossbeam_channel::Sender::try_send, which never blocks, used
/// on the unbounded command queue, where a full channel cannot occur: true
/// unless every receiver is gone.
#[verifier::external_body]
fn chan_send_command(s: &crossbeam_channel::Sender<Command>, cmd: Command) -> (ok: bool) {
    s.try_send(cmd).is_ok()
}

/// How a signal on a bounded one-slot channel was taken.
#[derive(PartialEq, Eq, Structural, Clone, Copy, Debug)]
pub enum SignalDelivery {
    /// The slot took the signal.
    Delivered,
    /// The slot already holds one: the signal is already on its way.
    AlreadyPending,
    /// Every receiver is gone.
    Closed,
}

/// Relies on crossbeam_channel::Sender::try_send, which never blocks: its
/// three outcomes — sent, channel full, all receivers gone — one arm each.
#[verifier::external_body]
fn chan_try_send_signal(s: &crossbeam_channel::Sender<()>) -> (r: SignalDelivery) {
    match s.try_send(()) {
        Ok(()) => SignalDelivery::Delivered,
        Err(crossbeam_channel::TrySendError::Full(_)) => SignalDelivery::AlreadyPending,
        Err(crossbeam_channel::TrySendError::Disconnected(_)) => SignalDelivery::Closed,
    }
}

/// Relies on crossbeam_channel::Sender::try_send, as above, for addresses.
#[verifier::external_body]
fn chan_try_send_addr(s: &crossbeam_channel::Sender<HostAddr>, a: HostAddr) -> (r: SignalDelivery) {
    match s.try_send(a) {
        Ok(()) => SignalDelivery::Delivered,
        Err(crossbeam_channel::TrySendError::Full(_)) => SignalDelivery::AlreadyPending,
        Err(crossbeam_channel::TrySendError::Disconnected(_)) => SignalDelivery::Closed,
    }
}

/// Relies on crossbeam_channel::Receiver::try_recv, which never blocks: a
/// queued command or nothing.
#[verifier::external_body]
fn chan_try_recv_command(r: &crossbeam_channel::Receiver<Command>) -> (x: Option<Command>) {
    match r.try_recv() {
        Ok(v) => Some(v),
        Err(_) => Option::None,
    }
}

/// Relies on crossbeam_channel::Receiver::try_recv, which never blocks:
/// whether a signal was pending.
#[verifier::external_body]
fn chan_try_recv_signal(r: &crossbeam_channel::Receiver<()>) -> (x: bool) {
    r.try_recv().is_ok()
}

/// Relies on crossbeam_channel::Receiver::try_recv, which never blocks: a
/// queued address or nothing.
#[verifier::external_body]
fn chan_try_recv_addr(r: &crossbeam_channel::Receiver<HostAddr>) -> (x: Option<HostAddr>) {
    match r.try_recv() {
        Ok(v) => Some(v),
        Err(_) => Option::None,
    }
}

/// Relies on crossbeam_channel::Receiver::recv: blocks until a reply is
/// queued (`Some`) or every sender is gone (`None`); never panics.
#[verifier::external_body]
fn chan_recv_reply(r: &crossbeam_channel::Receiver<QueryReply>) -> (x: Option<QueryReply>) {
    match r.recv() {
        Ok(v) => Some(v),
        Err(_) => Option::None,
    }
}

/// The external, thread-safe face of a running node: channel endpoints
/// only, so it outlives the client that spawned it and holds no
/// back-reference into the service.
pub struct Handle {
    pub commands: crossbeam_channel::Sender<Command>,
    pub shutdown: crossbeam_channel::Sender<()>,
    pub listening: crossbeam_channel::Receiver<HostAddr>,
    pub replies: crossbeam_channel::Receiver<QueryReply>,
}

impl Handle {
    /// Another handle to the same node: every endpoint belongs to the same
    /// channel as this handle's.
    pub fn duplicate(&self) -> (h: Handle)
        ensures
            cmd_chan_of_sender(h.commands) == cmd_chan_of_sender(self.commands),
            sig_chan_of_sender(h.shutdown) == sig_chan_of_sender(self.shutdown),
            sig_cap_of_sender(h.shutdown) == sig_cap_of_sender(self.shutdown),
            addr_chan_of_receiver(h.listening) == addr_chan_of_receiver(self.listening),
            reply_chan_of_receiver(h.replies) == reply_chan_of_receiver(self.replies),
    {
        Handle {
            commands: clone_cmd_sender(&self.commands),
            shutdown: clone_sig_sender(&self.shutdown),
            listening: clone_addr_receiver(&self.listening),
            replies: clone_reply_receiver(&self.replies),
        }
    }

    /// Enqueue a command for the service. The queue is unbounded, so this
    /// never blocks; it fails only when the node is gone.
    pub fn command(&self, cmd: Command) -> (r: Result<(), Error>)
        ensures
            r matches Err(e) ==> e == Error::Disconnected,
    {
        if chan_send_command(&self.commands, cmd) {
            Ok(())
        } else {
            Err(Error::Disconnected)
        }
    }

    /// Ask the node to shut down. The signal slot holds one message and is
    /// sent to without blocking; a request finding the slot full reports
    /// success, since shutdown is already on its way — asking twice neither
    /// blocks nor tears anything down twice.
    pub fn shutdown(&self) -> (r: Result<(), Error>)
        ensures
            r matches Err(e) ==> e == Error::Disconnected,
    {
        match chan_try_send_signal(&self.shutdown) {
            SignalDelivery::Delivered => Ok(()),
            SignalDelivery::AlreadyPending => Ok(()),
            SignalDelivery::Closed => Err(Error::Disconnected),
        }
    }

    /// Ask for the ready peers: a synchronous command/response round trip.
    /// The request joins the command queue; the call then blocks until the
    /// service's answer arrives, or fails when the node is gone. Answers
    /// come back in the order the queries were enqueued.
    pub fn list_peers(&self) -> (r: Result<QueryReply, Error>)
        ensures
            r matches Err(e) ==> e == Error::Disconnected,
    {
        if !chan_send_command(&self.commands, Command::ListPeers) {
            return Err(Error::Disconnected);
        }
        match chan_recv_reply(&self.replies) {
            Some(reply) => Ok(reply),
            Option::None => Err(Error::Disconnected),
        }
    }

    /// Ask for the live providers of `resource`: a synchronous round trip,
    /// as [`Handle::list_peers`].
    pub fn list_routes(&self, resource: crate::ids::ResourceId) -> (r: Result<QueryReply, Error>)
        ensures
            r matches Err(e) ==> e == Error::Disconnected,
    {
        if !chan_send_command(&self.commands, Command::ListRoutes { resource }) {
            return Err(Error::Disconnected);
        }
        match chan_recv_reply(&self.replies) {
            Some(reply) => Ok(reply),
            Option::None => Err(Error::Disconnected),
        }
    }

    /// The address the node listens on, once the reactor has bound it and
    /// announced it; the slot is set once and read once.
    pub fn listen_addr(&self) -> (r: Option<HostAddr>) {
        chan_try_recv_addr(&self.listening)
    }
}

/// The client: owner of the channel endpoints around a node run.
pub struct Client {
    pub handle: crossbeam_channel::Sender<Command>,
    pub commands: crossbeam_channel::Receiver<Command>,
    pub shutdown: crossbeam_channel::Sender<()>,
    pub shutdown_recv: crossbeam_channel::Receiver<()>,
    pub listening_send: crossbeam_channel::Sender<HostAddr>,
    pub listening: crossbeam_channel::Receiver<HostAddr>,
    pub replies_send: crossbeam_channel::Sender<QueryReply>,
    pub replies: crossbeam_channel::Receiver<QueryReply>,
    pub events: Events,
}

impl Client {
    /// A client with fresh wiring: the handles' command sender feeds the
    /// reactor's receiver through one unbounded queue; shutdown and the
    /// listen address each travel through one channel holding a single
    /// message; query replies flow back through one queue. The event log
    /// starts empty.
    pub fn new() -> (c: Client)
        ensures
            c.events.published@ =~= Seq::<service::Event>::empty(),
            cmd_chan_of_sender(c.handle) == cmd_chan_of_receiver(c.commands),
            sig_chan_of_sender(c.shutdown) == sig_chan_of_receiver(c.shutdown_recv),
            sig_cap_of_sender(c.shutdown) == 1,
            addr_chan_of_sender(c.listening_send) == addr_chan_of_receiver(c.listening),
            addr_cap_of_sender(c.listening_send) == 1,
            reply_chan_of_sender(c.replies_send) == reply_chan_of_receiver(c.replies),
    {
        let (handle, commands) = chan_unbounded_commands();
        let (shutdown, shutdown_recv) = chan_bounded_signal(1);
        let (listening_send, listening) = chan_bounded_addrs(1);
        let (replies_send, replies) = chan_unbounded_replies();
        let events = Events::new();
        Client {
            handle,
            commands,
            shutdown,
            shutdown_recv,
            listening_send,
            listening,
            replies_send,
            replies,
            events,
        }
    }

    /// A new handle to command the node from other threads: its sender
    /// feeds this client's command receiver, its shutdown sender the
    /// one-slot signal, and it reads the listen address and the query
    /// replies this client's reactor writes.
    pub fn handle(&self) -> (h: Handle)
        ensures
            cmd_chan_of_sender(h.commands) == cmd_chan_of_sender(self.handle),
            sig_chan_of_sender(h.shutdown) == sig_chan_of_sender(self.shutdown),
            sig_cap_of_sender(h.shutdown) == sig_cap_of_sender(self.shutdown),
            addr_chan_of_receiver(h.listening) == addr_chan_of_receiver(self.listening),
            reply_chan_of_receiver(h.replies) == reply_chan_of_receiver(self.replies),
    {
        Handle {
            commands: clone_cmd_sender(&self.handle),
            shutdown: clone_sig_sender(&self.shutdown),
            listening: clone_addr_receiver(&self.listening),
            replies: clone_reply_receiver(&self.replies),
        }
    }

    /// The ends the reactor loop works: the command and shutdown receivers
    /// it drains, the sender announcing the bound address, and the sender
    /// carrying query replies back — each of the same channel as this
    /// client's own endpoint.
    pub fn reactor_ends(&self) -> (r: (
        crossbeam_channel::Receiver<Command>,
        crossbeam_channel::Receiver<()>,
        crossbeam_channel::Sender<HostAddr>,
        crossbeam_channel::Sender<QueryReply>,
    ))
        ensures
            cmd_chan_of_receiver(r.0) == cmd_chan_of_receiver(self.commands),
            sig_chan_of_receiver(r.1) == sig_chan_of_receiver(self.shutdown_recv),
            addr_chan_of_sender(r.2) == addr_chan_of_sender(self.listening_send),
            addr_cap_of_sender(r.2) == addr_cap_of_sender(self.listening_send),
            reply_chan_of_sender(r.3) == reply_chan_of_sender(self.replies_send),
    {
        (
            clone_cmd_receiver(&self.commands),
            clone_sig_receiver(&self.shutdown_recv),
            clone_addr_sender(&self.listening_send),
            clone_reply_sender(&self.replies_send),
        )
    }

    /// Rebuild the service from the persisted store contents the edge read
    /// from disk, bound to this node's identity. Fails exactly when a store
    /// is corrupt: when one holds two entries for a single key.
    pub fn build_service(
        config: service::Config,
        now_ms: u64,
        routing_entries: Vec<Entry>,
        address_records: Vec<KnownAddress>,
        local: NodeId,
    ) -> (r: Result<Service, Error>)
        ensures
            (match r {
                Ok(s) => {
                    &&& s.wf()
                    &&& s.config == config
                    &&& s.local == local
                    &&& s.phase == service::Phase::Initializing
                    &&& s.routing@ == routing_entries@
                    &&& s.addresses@ == address_records@
                    &&& s.clock.spec_now() == now_ms
                    &&& s.sessions@ =~= Seq::<service::Session>::empty()
                    &&& s.interests@ =~= Seq::<crate::ids::ResourceId>::empty()
                    &&& s.outbox@ =~= Seq::<service::Action>::empty()
                    &&& s.next_session == 0
                },
                Err(Error::Routing(routing::Error::Corrupt)) => exists|i: int, j: int|
                    0 <= i < j < routing_entries@.len() && (#[trigger] routing_entries@[i]).resource
                        == (#[trigger] routing_entries@[j]).resource && routing_entries@[i].provider
                        == routing_entries@[j].provider,
                Err(Error::Addresses(address::Error::Corrupt)) => exists|i: int, j: int|
                    0 <= i < j < address_records@.len() && (#[trigger] address_records@[i]).node
                        == (#[trigger] address_records@[j]).node && address_records@[i].addr
                        == address_records@[j].addr,
                Err(Error::Disconnected) => false,
            }),
    {
        let table = match routing::Table::open_from(routing_entries) {
            Ok(t) => t,
            Err(e) => {
                return Err(Error::Routing(e));
            },
        };
        let book = match address::Book::open_from(address_records) {
            Ok(b) => b,
            Err(e) => {
                return Err(Error::Addresses(e));
            },
        };
        let clock = Clock::new(now_ms);
        let rng = service::rng_new();
        Ok(Service::new(config, clock, table, book, local, rng))
    }

    /// Drain one command from the queue into the service, if one is
    /// waiting. An empty queue leaves the service untouched; a waiting
    /// command makes the service take exactly one command step on it.
    pub fn pump_one(service: &mut Service, commands: &crossbeam_channel::Receiver<Command>, now: u64) -> (consumed: bool)
        requires
            old(service).wf(),
            old(service).next_session < u64::MAX,
        ensures
            final(service).wf(),
            !consumed ==> *final(service) == *old(service),
            consumed ==> exists|cmd: Command|
                #[trigger] command_step(*old(service), *final(service), cmd, now),
    {
        let cmd = match chan_try_recv_command(commands) {
            Some(c) => c,
            Option::None => {
                return false;
            },
        };
        service.command(cmd, now);
        proof {
            assert(command_step(*old(service), *service, cmd, now));
        }
        true
    }

    /// Whether shutdown has been signalled; consumes the signal.
    pub fn shutdown_requested(shutdown: &crossbeam_channel::Receiver<()>) -> (r: bool) {
        chan_try_recv_signal(shutdown)
    }

    /// Announce the bound listen address to whoever holds the handle; the
    /// slot holds one address, set once.
    pub fn announce_listening(&self, addr: HostAddr) {
        let _delivered = chan_try_send_addr(&self.listening_send, addr);
    }

    /// The events recorded so far.
    pub fn events(&self) -> (e: &Events)
        ensures
            e == &self.events,
    {
        &self.events
    }

    /// Record one event.
    pub fn publish(&mut self, e: service::Event)
        ensures
            final(self).events.published@ == old(self).events.published@.push(e),
            final(self).handle == old(self).handle,
            final(self).commands == old(self).commands,
            final(self).shutdown == old(self).shutdown,
            final(self).shutdown_recv == old(self).shutdown_recv,
            final(self).listening_send == old(self).listening_send,
            final(self).listening == old(self).listening,
            final(self).replies_send == old(self).replies_send,
            final(self).replies == old(self).replies,
    {
        self.events.publish(e);
    }
}

} // verus!
