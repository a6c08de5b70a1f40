//! The client program's core decisions.
//!
//! The client connects to the server, joins under a self-declared name and
//! then forwards what the server sends to its interactive loop.  The socket
//! work, the task plumbing and the terminal live outside this crate; the
//! decisions — what to send to join, how to judge the server's answer, and
//! which interactive event an arriving server message becomes — stand here.
use vstd::prelude::*;

verus! {

use crate::{ClientId, ClientMessage, ClientMessageV, ServerMessage};
use crate::vim::VimMode;

#[verifier::external_type_specification]
#[verifier::external_body]
pub struct ExIoError(std::io::Error);

/// How the client program can fail.
#[derive(Debug)]
pub enum ClientError {
    Io(std::io::Error),
}

/// The name the client joins under, taken from the command line.
#[derive(Clone, Debug, PartialEq, Eq)]
pub struct CommandArgs {
    pub name: String,
}

/// Interactive state shared between the network loop and the composer.
#[derive(Debug)]
pub struct AppState {
    pub mode: VimMode,
}

impl Default for AppState {
    /// The composer starts in normal mode.
    fn default() -> (r: Self)
        ensures
            r.mode == VimMode::Normal,
    {
        AppState { mode: VimMode::Normal }
    }
}

/// What the interactive loop reacts to: a redraw, a roster change, a
/// message to send or show, or the order to quit.
#[derive(Debug)]
pub enum InteractiveEvent {
    RedrawRequest,
    ClientListUpdate { clients: Vec<ClientId> },
    SendMessage { content: String },
    ReceiveMessage { sender: ClientId, content: String },
    Quit,
}

/// The record a client sends to join under the given name.
pub fn make_join_request(name: String) -> (r: ClientMessage)
    ensures
        r@ == (ClientMessageV::JoinRequest { name: name@ }),
{
    ClientMessage::JoinRequest { name }
}

/// Whether the server's first answer accepts the join.
pub fn check_join_response(response: &ServerMessage) -> (ok: bool)
    ensures
        ok == (*response matches ServerMessage::AcceptJoin),
{
    match response {
        ServerMessage::AcceptJoin => true,
        _ => false,
    }
}

/// The network loop's dispatch: which interactive event an arriving server
/// message becomes.  An acceptance at this stage carries no event; roster
/// updates and relayed messages go to the interactive loop unchanged.
pub fn network_dispatch(message: ServerMessage) -> (r: Option<InteractiveEvent>)
    ensures
        match message {
            ServerMessage::AcceptJoin => r is None,
            ServerMessage::ClientListUpdate { clients } => r matches Some(e) && e
                matches InteractiveEvent::ClientListUpdate { clients: c } && c == clients,
            ServerMessage::ReceiveMessage { sender, message } => r matches Some(e) && e
                matches InteractiveEvent::ReceiveMessage { sender: s, content } && s == sender
                && content == message,
        },
{
    match message {
        ServerMessage::AcceptJoin => None,
        ServerMessage::ClientListUpdate { clients } => Some(
            InteractiveEvent::ClientListUpdate { clients },
        ),
        ServerMessage::ReceiveMessage { sender, message } => Some(
            InteractiveEvent::ReceiveMessage { sender, content: message },
        ),
    }
}

} // verus!
