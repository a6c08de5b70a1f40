//! Verified core of a terminal chat service.
//!
//! Clients connect to a central server, join under a self-declared name, and
//! exchange text messages that the server relays to every joined client.
//! This crate holds the parts of that system that are amenable to proof: the
//! wire codec (length-delimited framing, block compression, compact binary
//! record encoding), the ephemeral-key secure channel, and the server's
//! registry, broadcast fan-out, concurrency gate and connection state
//! machine.  The surrounding I/O (sockets, tasks, the terminal UI) lives
//! outside this crate and drives these functions.
use vstd::prelude::*;

pub mod cbor;
pub mod client;
pub mod codec;
pub mod secure;
pub mod server;
pub mod vim;

verus! {

/// IP address of a peer, held as plain integers.
#[derive(Clone, Copy, Debug, PartialEq, Eq, Hash, Structural)]
pub enum IpAddress {
    V4 { a: u8, b: u8, c: u8, d: u8 },
    V6 { s0: u16, s1: u16, s2: u16, s3: u16, s4: u16, s5: u16, s6: u16, s7: u16 },
}

/// Socket address of a peer: an IP address and a port.
#[derive(Clone, Copy, Debug, PartialEq, Eq, Hash, Structural)]
pub struct SocketAddress {
    pub ip: IpAddress,
    pub port: u16,
}

/// Identity of a joined client: the self-declared name together with the
/// connection's peer address.  Used as the unique key of the server's
/// registry; fixed at join time for the life of the connection.
#[derive(Debug, PartialEq, Eq, Hash)]
pub struct ClientId {
    pub name: String,
    pub addr: SocketAddress,
}

impl Clone for ClientId {
    /// A clone is equal to the original.
    fn clone(&self) -> (r: Self)
        ensures
            r == *self,
    {
        ClientId { name: self.name.clone(), addr: self.addr }
    }
}

/// Mathematical value of a [`ClientId`].
pub struct ClientIdV {
    pub name: Seq<char>,
    pub addr: SocketAddress,
}

impl View for ClientId {
    type V = ClientIdV;

    open spec fn view(&self) -> ClientIdV {
        ClientIdV { name: self.name@, addr: self.addr }
    }
}

/// Message coming from a client.
#[derive(Clone, Debug, PartialEq, Eq)]
pub enum ClientMessage {
    /// Ask to join under the given name.
    JoinRequest { name: String },
    /// Ask the server to broadcast a message for you.
    SendMessage { message: String },
}

/// Mathematical value of a [`ClientMessage`].
pub enum ClientMessageV {
    JoinRequest { name: Seq<char> },
    SendMessage { message: Seq<char> },
}

impl View for ClientMessage {
    type V = ClientMessageV;

    open spec fn view(&self) -> ClientMessageV {
        match self {
            ClientMessage::JoinRequest { name } => ClientMessageV::JoinRequest { name: name@ },
            ClientMessage::SendMessage { message } => ClientMessageV::SendMessage {
                message: message@,
            },
        }
    }
}

/// Message coming from the server.
#[derive(Clone, Debug, PartialEq, Eq)]
pub enum ServerMessage {
    /// The join request was accepted.
    AcceptJoin,
    /// The roster of currently joined clients changed.
    ClientListUpdate { clients: Vec<ClientId> },
    /// Another client sent a message.
    ReceiveMessage { sender: ClientId, message: String },
}

/// The sequence of mathematical values of a sequence of client identities.
pub open spec fn id_views(v: Seq<ClientId>) -> Seq<ClientIdV> {
    Seq::new(v.len(), |i: int| v[i]@)
}

/// Mathematical value of a [`ServerMessage`].
pub enum ServerMessageV {
    AcceptJoin,
    ClientListUpdate { clients: Seq<ClientIdV> },
    ReceiveMessage { sender: ClientIdV, message: Seq<char> },
}

impl View for ServerMessage {
    type V = ServerMessageV;

    open spec fn view(&self) -> ServerMessageV {
        match self {
            ServerMessage::AcceptJoin => ServerMessageV::AcceptJoin,
            ServerMessage::ClientListUpdate { clients } => ServerMessageV::ClientListUpdate {
                clients: id_views(clients@),
            },
            ServerMessage::ReceiveMessage { sender, message } => ServerMessageV::ReceiveMessage {
                sender: sender@,
                message: message@,
            },
        }
    }
}

} // verus!
