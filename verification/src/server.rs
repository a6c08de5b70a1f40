//! The server's core: the concurrent client registry, the per-connection
//! protocol state machine, the broadcast fan-out and the acceptor's
//! concurrency gate.
//!
//! The registry maps each joined identity to the handle of that
//! connection's outbound channel.  It is held in a concurrent hash map so
//! that the surrounding tasks share it without one global lock; the
//! contracts here describe it as a mathematical map from identity to
//! channel.  The state machine decides everything a connection handler
//! does — when to register, what to reply, what to broadcast, when to
//! clean up — while the surrounding I/O only carries those decisions out.
use vstd::prelude::*;

verus! {

use std::collections::hash_map::RandomState;
use vstd::set::axiom_set_insert_len;
use vstd::set::axiom_set_remove_len;
use crate::{ClientId, ClientIdV, ClientMessage, IpAddress, ServerMessage, ServerMessageV,
    SocketAddress, id_views};

/// Process-wide settings, loaded once at start.
#[derive(Clone, Debug, PartialEq, Eq, Hash)]
pub struct ServerSettings {
    pub listen_addresses: Vec<SocketAddress>,
    pub max_concurrency: usize,
    pub max_message_buffer_size: usize,
}

impl Default for ServerSettings {
    /// One listener on every interface at port 6942, 128 concurrent
    /// connections per listener, 2048-byte message buffers.
    fn default() -> (r: Self)
        ensures
            r.listen_addresses@.len() == 1,
            r.listen_addresses@[0] == (SocketAddress {
                ip: IpAddress::V4 { a: 0, b: 0, c: 0, d: 0 },
                port: 6942,
            }),
            r.max_concurrency == 128,
            r.max_message_buffer_size == 2048,
    {
        let mut listen_addresses: Vec<SocketAddress> = Vec::new();
        listen_addresses.push(
            SocketAddress { ip: IpAddress::V4 { a: 0, b: 0, c: 0, d: 0 }, port: 6942 },
        );
        ServerSettings { listen_addresses, max_concurrency: 128, max_message_buffer_size: 2048 }
    }
}

// ---------------------------------------------------------------------------
// The concurrent registry map
// ---------------------------------------------------------------------------
#[verifier::external_type_specification]
#[verifier::external_body]
#[verifier::reject_recursive_types(K)]
#[verifier::reject_recursive_types(V)]
#[verifier::reject_recursive_types(S)]
pub struct ExPapayaHashMap<K, V, S>(papaya::HashMap<K, V, S>);

/// The entries the registry map holds: each joined identity and the handle
/// of its connection's outbound channel.
pub uninterp spec fn registry_entries(m: papaya::HashMap<ClientId, u64, RandomState>) -> Map<
    ClientIdV,
    u64,
>;

/// The empty registry map.
pub open spec fn empty_registry() -> Map<ClientIdV, u64> {
    Map::empty()
}

/// The registry: a concurrent map from joined identity to the handle of
/// that connection's outbound channel, shared by all connection tasks
/// without one global lock.
pub struct Registry {
    inner: papaya::HashMap<ClientId, u64, RandomState>,
}

impl View for Registry {
    type V = Map<ClientIdV, u64>;

    closed spec fn view(&self) -> Map<ClientIdV, u64> {
        registry_entries(self.inner)
    }
}

/// Relies on `papaya::HashMap::new`: a fresh map holds no entries.
#[verifier::external_body]
fn registry_new() -> (r: Registry)
    ensures
        registry_entries(r.inner) == empty_registry(),
{
    Registry { inner: papaya::HashMap::new() }
}

/// Relies on `papaya::HashMap::insert` under a pinned guard: the value
/// is stored under the key, replacing any previous value for that key.
/// Keys are compared by `ClientId`'s derived equality, which equates
/// exactly the identities with equal views.
#[verifier::external_body]
fn registry_insert(r: &mut Registry, id: ClientId, chan: u64)
    ensures
        registry_entries(final(r).inner) == registry_entries(old(r).inner).insert(id@, chan),
{
    r.inner.pin().insert(id, chan);
}

/// Relies on `papaya::HashMap::remove` under a pinned guard: the entry
/// under the key, if any, is gone afterwards.
#[verifier::external_body]
fn registry_remove(r: &mut Registry, id: &ClientId)
    ensures
        registry_entries(final(r).inner) == registry_entries(old(r).inner).remove(id@),
{
    r.inner.pin().remove(id);
}

/// Relies on `papaya::HashMap::len`: the number of entries, which is
/// the size of the map's entry set.
#[verifier::external_body]
fn registry_len(r: &Registry) -> (n: usize)
    ensures
        n as int == registry_entries(r.inner).len(),
{
    r.inner.len()
}

/// Relies on `papaya::HashMap::iter` under a pinned guard: every entry
/// held at that moment is yielded exactly once, in no particular order.
#[verifier::external_body]
fn registry_snapshot(r: &Registry) -> (out: Vec<(ClientId, u64)>)
    ensures
        out@.len() == registry_entries(r.inner).len(),
        forall|i: int|
            0 <= i < out@.len() ==> registry_entries(r.inner).contains_pair(
                #[trigger] out@[i].0@,
                out@[i].1,
            ),
        forall|k: ClientIdV|
            registry_entries(r.inner).dom().contains(k) ==> exists|i: int|
                0 <= i < out@.len() && #[trigger] out@[i].0@ == k,
        forall|i: int, j: int|
            #![trigger out@[i], out@[j]]
            0 <= i < j < out@.len() ==> out@[i].0@ != out@[j].0@,
{
    let guard = r.inner.guard();
    let mut out: Vec<(ClientId, u64)> = Vec::new();
    for (k, v) in r.inner.iter(&guard) {
        out.push((k.clone(), *v));
    }
    out
}

impl Registry {
    /// A fresh, empty registry.
    pub fn new() -> (r: Registry)
        ensures
            r@ == empty_registry(),
            r@.dom().finite(),
    {
        registry_new()
    }

    /// Register a client's channel under its identity, replacing any
    /// previous entry for that identity.
    pub fn insert(&mut self, id: ClientId, chan: u64)
        ensures
            final(self)@ == old(self)@.insert(id@, chan),
    {
        registry_insert(self, id, chan);
    }

    /// Drop the entry under the identity, if any.
    pub fn remove(&mut self, id: &ClientId)
        ensures
            final(self)@ == old(self)@.remove(id@),
    {
        registry_remove(self, id);
    }

    /// How many clients are registered.
    pub fn len(&self) -> (n: usize)
        ensures
            n as int == self@.len(),
    {
        registry_len(self)
    }

    /// A point-in-time snapshot: every registered identity with its
    /// channel, each exactly once, in no particular order.
    pub fn snapshot(&self) -> (r: Vec<(ClientId, u64)>)
        ensures
            r@.len() == self@.len(),
            forall|i: int|
                0 <= i < r@.len() ==> self@.contains_pair(#[trigger] r@[i].0@, r@[i].1),
            forall|k: ClientIdV|
                self@.dom().contains(k) ==> exists|i: int|
                    0 <= i < r@.len() && #[trigger] r@[i].0@ == k,
            forall|i: int, j: int|
                #![trigger r@[i], r@[j]]
                0 <= i < j < r@.len() ==> r@[i].0@ != r@[j].0@,
    {
        registry_snapshot(self)
    }
}

// ---------------------------------------------------------------------------
// The server and its per-connection protocol state machine
// ---------------------------------------------------------------------------
/// A roster lists exactly the identities registered in `m`, each once.
pub open spec fn lists_entries(clients: Seq<ClientIdV>, m: Map<ClientIdV, u64>) -> bool {
    &&& clients.len() == m.len()
    &&& forall|i: int| 0 <= i < clients.len() ==> m.dom().contains(#[trigger] clients[i])
    &&& forall|k: ClientIdV|
        m.dom().contains(k) ==> exists|i: int| 0 <= i < clients.len() && #[trigger] clients[i] == k
    &&& forall|i: int, j: int|
        #![trigger clients[i], clients[j]]
        0 <= i < j < clients.len() ==> clients[i] != clients[j]
}

/// Lifecycle of one connection: freshly accepted, joined under a fixed
/// identity, or torn down.
#[derive(Clone, Debug, PartialEq, Eq)]
pub enum ConnState {
    Connected,
    Joined(ClientId),
    Closed,
}

/// What the transport handed a connection handler.
#[derive(Clone, Debug)]
pub enum ConnEvent {
    /// A record arrived and decoded.
    Received(ClientMessage),
    /// A record arrived but failed decryption or decoding: fatal to the
    /// connection.
    Malformed,
    /// The stream ended.
    Disconnected,
}

/// What the surrounding I/O must do after a step: reply on this connection,
/// or fan a message out to every registered client.
#[derive(Clone, Debug)]
pub enum ServerAction {
    Reply(ServerMessage),
    Broadcast(ServerMessage),
}

/// The server: the registry of joined clients and the process settings.
pub struct Server {
    clients: Registry,
    pub settings: ServerSettings,
}

impl View for Server {
    type V = Map<ClientIdV, u64>;

    closed spec fn view(&self) -> Map<ClientIdV, u64> {
        self.clients@
    }
}

impl Server {
    /// The registry's entry set is finite; holds of every server and is
    /// preserved by every operation.
    pub closed spec fn wf(&self) -> bool {
        self.clients@.dom().finite()
    }

    /// The settings the server was constructed with.
    pub closed spec fn spec_settings(&self) -> ServerSettings {
        self.settings
    }

    /// A new server has an empty registry.
    pub fn new(settings: ServerSettings) -> (r: Server)
        ensures
            r@ == empty_registry(),
            r.wf(),
            r.spec_settings() == settings,
    {
        Server { clients: Registry::new(), settings }
    }

    /// How many clients are currently joined.
    pub fn client_count(&self) -> (n: usize)
        ensures
            n as int == self@.len(),
    {
        self.clients.len()
    }

    /// The current roster: every joined identity exactly once, in the order
    /// the registry yields them.
    pub fn roster(&self) -> (r: Vec<ClientId>)
        ensures
            lists_entries(id_views(r@), self@),
    {
        let snap = self.clients.snapshot();
        let mut out: Vec<ClientId> = Vec::new();
        let mut i: usize = 0;
        while i < snap.len()
            invariant
                i <= snap@.len(),
                out@.len() == i,
                forall|j: int| 0 <= j < i ==> #[trigger] out@[j]@ == snap@[j].0@,
            decreases snap@.len() - i,
        {
            let (id, _chan) = &snap[i];
            out.push(id.clone());
            i = i + 1;
        }
        proof {
            let views = id_views(out@);
            assert forall|k: ClientIdV| self@.dom().contains(k) implies exists|i: int|
                0 <= i < views.len() && #[trigger] views[i] == k by {
                let i = choose|i: int| 0 <= i < snap@.len() && #[trigger] snap@[i].0@ == k;
                assert(views[i] == k);
            }
        }
        out
    }

    /// The broadcast fan-out plan: the identity and outbound channel of
    /// every registered client, each exactly once.  Delivering one message
    /// along this plan reaches each joined client exactly once — no more,
    /// no fewer — whatever order the deliveries run in.
    pub fn broadcast(&self) -> (r: Vec<(ClientId, u64)>)
        ensures
            r@.len() == self@.len(),
            forall|i: int| 0 <= i < r@.len() ==> self@.contains_pair(#[trigger] r@[i].0@, r@[i].1),
            forall|k: ClientIdV|
                self@.dom().contains(k) ==> exists|i: int| 0 <= i < r@.len() && #[trigger] r@[i].0@
                    == k,
            forall|i: int, j: int|
                #![trigger r@[i], r@[j]]
                0 <= i < j < r@.len() ==> r@[i].0@ != r@[j].0@,
    {
        self.clients.snapshot()
    }

    /// One step of the per-connection protocol state machine.
    ///
    /// While `Connected`, a join request registers the sender — replacing
    /// any previous entry under the same identity — and answers with an
    /// acceptance followed by a roster broadcast; any other message is
    /// ignored, and a transport failure closes the connection without
    /// touching the registry.  While `Joined`, a repeated join request is
    /// ignored, a send request broadcasts the message to everyone, and a
    /// transport failure or stream end removes exactly this connection's
    /// entry and broadcasts the shrunken roster.  A closed connection stays
    /// closed and acts no further.
    pub fn conn_step(&mut self, state: ConnState, event: ConnEvent, addr: SocketAddress, chan: u64)
        -> (r: (ConnState, Vec<ServerAction>))
        requires
            old(self).wf(),
        ensures
            final(self).wf(),
            final(self).spec_settings() == old(self).spec_settings(),
            match state {
                ConnState::Connected => match event {
                    ConnEvent::Received(msg) => match msg {
                        ClientMessage::JoinRequest { name } => {
                            &&& final(self)@ == old(self)@.insert(
                                ClientIdV { name: name@, addr },
                                chan,
                            )
                            &&& r.0 matches ConnState::Joined(j) && j@ == (ClientIdV {
                                name: name@,
                                addr,
                            })
                            &&& r.1@.len() == 2
                            &&& r.1@[0] matches ServerAction::Reply(a) && a@
                                == ServerMessageV::AcceptJoin
                            &&& r.1@[1] matches ServerAction::Broadcast(b) && b@
                                matches ServerMessageV::ClientListUpdate { clients }
                                && lists_entries(clients, final(self)@)
                        },
                        ClientMessage::SendMessage { .. } => {
                            &&& final(self)@ == old(self)@
                            &&& r.0 == ConnState::Connected
                            &&& r.1@.len() == 0
                        },
                    },
                    _ => {
                        &&& final(self)@ == old(self)@
                        &&& r.0 == ConnState::Closed
                        &&& r.1@.len() == 0
                    },
                },
                ConnState::Joined(id) => match event {
                    ConnEvent::Received(msg) => match msg {
                        ClientMessage::JoinRequest { .. } => {
                            &&& final(self)@ == old(self)@
                            &&& r.0 == ConnState::Joined(id)
                            &&& r.1@.len() == 0
                        },
                        ClientMessage::SendMessage { message } => {
                            &&& final(self)@ == old(self)@
                            &&& r.0 == ConnState::Joined(id)
                            &&& r.1@.len() == 1
                            &&& r.1@[0] matches ServerAction::Broadcast(b) && b@
                                == (ServerMessageV::ReceiveMessage {
                                sender: id@,
                                message: message@,
                            })
                        },
                    },
                    _ => {
                        &&& final(self)@ == old(self)@.remove(id@)
                        &&& r.0 == ConnState::Closed
                        &&& r.1@.len() == 1
                        &&& r.1@[0] matches ServerAction::Broadcast(b) && b@
                            matches ServerMessageV::ClientListUpdate { clients } && lists_entries(
                            clients,
                            final(self)@,
                        )
                    },
                },
                ConnState::Closed => {
                    &&& final(self)@ == old(self)@
                    &&& r.0 == ConnState::Closed
                    &&& r.1@.len() == 0
                },
            },
    {
        match state {
            ConnState::Connected => match event {
                ConnEvent::Received(msg) => match msg {
                    ClientMessage::JoinRequest { name } => {
                        let id = ClientId { name, addr };
                        self.clients.insert(id.clone(), chan);
                        let roster = self.roster();
                        let mut actions: Vec<ServerAction> = Vec::new();
                        actions.push(ServerAction::Reply(ServerMessage::AcceptJoin));
                        actions.push(
                            ServerAction::Broadcast(
                                ServerMessage::ClientListUpdate { clients: roster },
                            ),
                        );
                        (ConnState::Joined(id), actions)
                    },
                    ClientMessage::SendMessage { message: _ } => (ConnState::Connected, Vec::new()),
                },
                _ => (ConnState::Closed, Vec::new()),
            },
            ConnState::Joined(id) => match event {
                ConnEvent::Received(msg) => match msg {
                    ClientMessage::JoinRequest { name: _ } => (ConnState::Joined(id), Vec::new()),
                    ClientMessage::SendMessage { message } => {
                        let mut actions: Vec<ServerAction> = Vec::new();
                        actions.push(
                            ServerAction::Broadcast(
                                ServerMessage::ReceiveMessage { sender: id.clone(), message },
                            ),
                        );
                        (ConnState::Joined(id), actions)
                    },
                },
                _ => {
                    self.clients.remove(&id);
                    let roster = self.roster();
                    let mut actions: Vec<ServerAction> = Vec::new();
                    actions.push(
                        ServerAction::Broadcast(ServerMessage::ClientListUpdate { clients: roster }),
                    );
                    (ConnState::Closed, actions)
                },
            },
            ConnState::Closed => (ConnState::Closed, Vec::new()),
        }
    }
}

/// Joining twice under one identity keeps one entry: the later channel
/// replaces the earlier one, and the registry's size counts distinct
/// identities, not join attempts.
pub proof fn lemma_join_override(m: Map<ClientIdV, u64>, id: ClientIdV, c1: u64, c2: u64)
    requires
        m.dom().finite(),
    ensures
        m.insert(id, c1).insert(id, c2) == m.insert(id, c2),
        m.insert(id, c1).len() == m.insert(id, c2).len(),
        !m.dom().contains(id) ==> m.insert(id, c1).len() == m.len() + 1,
        m.dom().contains(id) ==> m.insert(id, c1).len() == m.len(),
{
    assert(m.insert(id, c1).insert(id, c2) =~= m.insert(id, c2));
    axiom_set_insert_len(m.dom(), id);
    assert(m.insert(id, c1).dom() =~= m.dom().insert(id));
    assert(m.insert(id, c2).dom() =~= m.dom().insert(id));
}

/// Leaving removes exactly the leaver: the registry shrinks by one when the
/// identity was joined and is untouched otherwise.
pub proof fn lemma_leave_removes_one(m: Map<ClientIdV, u64>, id: ClientIdV)
    requires
        m.dom().finite(),
    ensures
        !m.remove(id).dom().contains(id),
        m.dom().contains(id) ==> m.remove(id).len() == m.len() - 1,
        !m.dom().contains(id) ==> m.remove(id) == m,
{
    axiom_set_remove_len(m.dom(), id);
    assert(m.remove(id).dom() =~= m.dom().remove(id));
    if !m.dom().contains(id) {
        assert(m.remove(id) =~= m);
    }
}

// ---------------------------------------------------------------------------
// The acceptor's concurrency gate
// ---------------------------------------------------------------------------
/// Bounds the number of in-flight connection handlers on one listener: a
/// handler is admitted only below the limit, and each completed handler
/// frees its slot.  The count never exceeds the limit.
pub struct AcceptorGate {
    active: usize,
    max: usize,
}

impl AcceptorGate {
    #[verifier::type_invariant]
    spec fn type_inv(self) -> bool {
        self.active <= self.max
    }

    /// How many handlers are in flight.
    pub closed spec fn active_count(&self) -> int {
        self.active as int
    }

    /// The configured limit.
    pub closed spec fn limit(&self) -> int {
        self.max as int
    }

    /// A fresh gate for a listener with the given concurrency limit.
    pub fn new(max_concurrency: usize) -> (g: AcceptorGate)
        ensures
            g.active_count() == 0,
            g.limit() == max_concurrency,
    {
        AcceptorGate { active: 0, max: max_concurrency }
    }

    /// Whether a further handler may start now.
    pub fn can_admit(&self) -> (ok: bool)
        ensures
            ok == (self.active_count() < self.limit()),
    {
        proof {
            use_type_invariant(self);
        }
        self.active < self.max
    }

    /// Admit one handler if below the limit.  The count afterwards still
    /// never exceeds the limit.
    pub fn try_admit(&mut self) -> (ok: bool)
        ensures
            ok == (old(self).active_count() < old(self).limit()),
            final(self).limit() == old(self).limit(),
            ok ==> final(self).active_count() == old(self).active_count() + 1,
            !ok ==> final(self).active_count() == old(self).active_count(),
            final(self).active_count() <= final(self).limit(),
    {
        proof {
            use_type_invariant(&*self);
        }
        if self.active < self.max {
            self.active = self.active + 1;
            true
        } else {
            false
        }
    }

    /// A handler finished: free its slot.
    pub fn release(&mut self)
        requires
            old(self).active_count() > 0,
        ensures
            final(self).limit() == old(self).limit(),
            final(self).active_count() == old(self).active_count() - 1,
            final(self).active_count() <= final(self).limit(),
    {
        proof {
            use_type_invariant(&*self);
        }
        self.active = self.active - 1;
    }
}

impl AcceptorGate {
    /// How many handlers are in flight: never more than the configured
    /// limit, whatever sequence of admissions and releases came before.
    pub fn active(&self) -> (n: usize)
        ensures
            n as int == self.active_count(),
            n as int <= self.limit(),
    {
        proof {
            use_type_invariant(self);
        }
        self.active
    }
}

/// The server program's command line surface: create a settings file, run
/// from a settings file, or run from inline flags.
#[derive(Clone, Debug, PartialEq, Eq)]
pub enum Command {
    /// Create a new settings file to load.
    New { path: String, overwrite: bool },
    /// Run from a settings file.
    Run { path: String },
    /// Run from inline addresses and limits.
    Cli {
        listen_addresses: Vec<String>,
        max_concurrency: usize,
        max_message_buffer_size: usize,
    },
}

} // verus!
