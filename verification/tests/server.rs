use term_chat::client::{check_join_response, make_join_request, network_dispatch, InteractiveEvent};
use term_chat::server::{
    AcceptorGate, Command, ConnEvent, ConnState, Server, ServerAction, ServerSettings,
};
use term_chat::vim::{Action, VimMode};
use term_chat::{ClientId, ClientMessage, IpAddress, ServerMessage, SocketAddress};

fn addr(last_octet: u8, port: u16) -> SocketAddress {
    SocketAddress {
        ip: IpAddress::V4 {
            a: 127,
            b: 0,
            c: 0,
            d: last_octet,
        },
        port,
    }
}

fn join(server: &mut Server, name: &str, a: SocketAddress, chan: u64) -> (ConnState, Vec<ServerAction>) {
    server.conn_step(
        ConnState::Connected,
        ConnEvent::Received(ClientMessage::JoinRequest {
            name: name.to_string(),
        }),
        a,
        chan,
    )
}

#[test]
fn join_is_idempotent_per_identity() {
    // Joining twice under one name and address replaces the entry: the
    // registry counts distinct identities, not join attempts.
    let mut server = Server::new(ServerSettings::default());
    join(&mut server, "alice", addr(1, 5001), 1);
    assert_eq!(server.client_count(), 1);
    join(&mut server, "alice", addr(1, 5001), 2);
    assert_eq!(server.client_count(), 1);
    // The replacement kept the later channel.
    let plan = server.broadcast();
    assert_eq!(plan.len(), 1);
    assert_eq!(plan[0].1, 2);

    join(&mut server, "bob", addr(2, 5002), 3);
    assert_eq!(server.client_count(), 2);
    // Same name at another address is another identity.
    join(&mut server, "alice", addr(3, 5003), 4);
    assert_eq!(server.client_count(), 3);
}

#[test]
fn broadcast_reaches_each_client_exactly_once() {
    let mut server = Server::new(ServerSettings::default());
    let n: u64 = 5;
    for i in 0..n {
        join(
            &mut server,
            &format!("client{}", i),
            addr(10, 6000 + i as u16),
            i,
        );
    }
    let (state, actions) = server.conn_step(
        ConnState::Joined(ClientId {
            name: "client0".to_string(),
            addr: addr(10, 6000),
        }),
        ConnEvent::Received(ClientMessage::SendMessage {
            message: "hi all".to_string(),
        }),
        addr(10, 6000),
        0,
    );
    assert!(matches!(state, ConnState::Joined(_)));
    assert_eq!(actions.len(), 1);
    match &actions[0] {
        ServerAction::Broadcast(ServerMessage::ReceiveMessage { sender, message }) => {
            assert_eq!(sender.name, "client0");
            assert_eq!(message, "hi all");
        }
        other => panic!("expected a broadcast, got {:?}", other),
    }
    // The fan-out plan holds every joined client exactly once.
    let plan = server.broadcast();
    assert_eq!(plan.len() as u64, n);
    let mut chans: Vec<u64> = plan.iter().map(|(_, c)| *c).collect();
    chans.sort();
    assert_eq!(chans, vec![0, 1, 2, 3, 4]);
}

#[test]
fn acceptor_never_exceeds_its_limit() {
    let mut gate = AcceptorGate::new(2);
    assert!(gate.try_admit());
    assert!(gate.try_admit());
    assert!(!gate.try_admit());
    assert_eq!(gate.active(), 2);
    gate.release();
    assert_eq!(gate.active(), 1);
    assert!(gate.try_admit());
    assert!(!gate.try_admit());
    assert_eq!(gate.active(), 2);

    let mut zero = AcceptorGate::new(0);
    assert!(!zero.try_admit());
    assert_eq!(zero.active(), 0);
}

#[test]
fn chat_scenario() {
    // Client A joins as alice from 127.0.0.1:5001; the server accepts and
    // broadcasts the roster.  B joins; the roster grows.  A sends "hi";
    // everyone receives it from alice.  B disconnects; the roster shrinks.
    let mut server = Server::new(ServerSettings::default());
    let alice_addr = addr(1, 5001);
    let bob_addr = addr(1, 5002);

    let (state_a, actions) = join(&mut server, "alice", alice_addr, 1);
    let alice = match &state_a {
        ConnState::Joined(id) => id.clone(),
        other => panic!("alice did not join: {:?}", other),
    };
    assert_eq!(alice.name, "alice");
    assert_eq!(alice.addr, alice_addr);
    assert_eq!(actions.len(), 2);
    assert!(matches!(
        actions[0],
        ServerAction::Reply(ServerMessage::AcceptJoin)
    ));
    match &actions[1] {
        ServerAction::Broadcast(ServerMessage::ClientListUpdate { clients }) => {
            assert_eq!(clients.len(), 1);
            assert_eq!(clients[0], alice);
        }
        other => panic!("expected a roster broadcast, got {:?}", other),
    }

    let (state_b, actions) = join(&mut server, "bob", bob_addr, 2);
    match &actions[1] {
        ServerAction::Broadcast(ServerMessage::ClientListUpdate { clients }) => {
            assert_eq!(clients.len(), 2);
            let mut names: Vec<String> = clients.iter().map(|c| c.name.clone()).collect();
            names.sort();
            assert_eq!(names, vec!["alice".to_string(), "bob".to_string()]);
        }
        other => panic!("expected a roster broadcast, got {:?}", other),
    }

    let (state_a, actions) = server.conn_step(
        state_a,
        ConnEvent::Received(ClientMessage::SendMessage {
            message: "hi".to_string(),
        }),
        alice_addr,
        1,
    );
    match &actions[0] {
        ServerAction::Broadcast(ServerMessage::ReceiveMessage { sender, message }) => {
            assert_eq!(*sender, alice);
            assert_eq!(message, "hi");
        }
        other => panic!("expected a relayed message, got {:?}", other),
    }
    assert_eq!(server.broadcast().len(), 2);

    let (state_b, actions) = server.conn_step(state_b, ConnEvent::Disconnected, bob_addr, 2);
    assert_eq!(state_b, ConnState::Closed);
    match &actions[0] {
        ServerAction::Broadcast(ServerMessage::ClientListUpdate { clients }) => {
            assert_eq!(clients.len(), 1);
            assert_eq!(clients[0], alice);
        }
        other => panic!("expected a roster broadcast, got {:?}", other),
    }
    assert_eq!(server.client_count(), 1);

    // A closed connection acts no further.
    let (state_b, actions) = server.conn_step(state_b, ConnEvent::Disconnected, bob_addr, 2);
    assert_eq!(state_b, ConnState::Closed);
    assert!(actions.is_empty());
    assert_eq!(server.client_count(), 1);

    // A repeated join request on a joined connection is ignored.
    let (state_a, actions) = server.conn_step(
        state_a,
        ConnEvent::Received(ClientMessage::JoinRequest {
            name: "alice2".to_string(),
        }),
        alice_addr,
        1,
    );
    assert!(matches!(state_a, ConnState::Joined(_)));
    assert!(actions.is_empty());
    assert_eq!(server.client_count(), 1);
}

#[test]
fn pre_join_messages_are_ignored() {
    let mut server = Server::new(ServerSettings::default());
    let (state, actions) = server.conn_step(
        ConnState::Connected,
        ConnEvent::Received(ClientMessage::SendMessage {
            message: "too early".to_string(),
        }),
        addr(1, 5001),
        1,
    );
    assert_eq!(state, ConnState::Connected);
    assert!(actions.is_empty());
    assert_eq!(server.client_count(), 0);

    // A malformed record before the join closes the connection without
    // touching the registry.
    let (state, actions) = server.conn_step(ConnState::Connected, ConnEvent::Malformed, addr(1, 5001), 1);
    assert_eq!(state, ConnState::Closed);
    assert!(actions.is_empty());
    assert_eq!(server.client_count(), 0);
}

#[test]
fn settings_default_values() {
    let settings = ServerSettings::default();
    assert_eq!(settings.listen_addresses.len(), 1);
    assert_eq!(
        settings.listen_addresses[0],
        SocketAddress {
            ip: IpAddress::V4 { a: 0, b: 0, c: 0, d: 0 },
            port: 6942
        }
    );
    assert_eq!(settings.max_concurrency, 128);
    assert_eq!(settings.max_message_buffer_size, 2048);
    let _ = Command::Run {
        path: "server-settings.ron".to_string(),
    };
}

#[test]
fn client_join_and_dispatch() {
    let req = make_join_request("alice".to_string());
    assert_eq!(
        req,
        ClientMessage::JoinRequest {
            name: "alice".to_string()
        }
    );
    assert!(check_join_response(&ServerMessage::AcceptJoin));
    assert!(!check_join_response(&ServerMessage::ClientListUpdate {
        clients: vec![]
    }));

    assert!(network_dispatch(ServerMessage::AcceptJoin).is_none());
    let alice = ClientId {
        name: "alice".to_string(),
        addr: addr(1, 5001),
    };
    match network_dispatch(ServerMessage::ReceiveMessage {
        sender: alice.clone(),
        message: "hi".to_string(),
    }) {
        Some(InteractiveEvent::ReceiveMessage { sender, content }) => {
            assert_eq!(sender, alice);
            assert_eq!(content, "hi");
        }
        other => panic!("expected a receive event, got {:?}", other),
    }
    match network_dispatch(ServerMessage::ClientListUpdate {
        clients: vec![alice.clone()],
    }) {
        Some(InteractiveEvent::ClientListUpdate { clients }) => assert_eq!(clients, vec![alice]),
        other => panic!("expected a roster event, got {:?}", other),
    }
}

#[test]
fn vim_action_accumulates() {
    assert_eq!(VimMode::default(), VimMode::Normal);
    assert_eq!(Action::default(), Action::Empty);

    assert_eq!(Action::from_char('7'), Action::Number(7));
    assert_eq!(Action::from_char('d'), Action::Char('d'));

    let mut action = Action::Empty;
    action.update(Action::from_char('d'));
    assert_eq!(action, Action::Char('d'));
    assert!(action.is_char());
    assert_eq!(action.get_char(), Some('d'));
    assert_eq!(action.get_number(), None);

    action.update(Action::from_char('2'));
    action.update(Action::from_char('3'));
    assert_eq!(action, Action::CharNumber('d', 23));
    assert!(!action.is_char());
    assert!(!action.is_number());
    assert_eq!(action.get_char(), Some('d'));
    assert_eq!(action.get_number(), Some(23));

    action.update(Action::from_char('y'));
    assert_eq!(action, Action::Char('y'));

    let mut count = Action::Empty;
    count.update(Action::from_char('1'));
    count.update(Action::from_char('0'));
    assert_eq!(count, Action::Number(10));
    assert!(count.is_number());

    count.clear();
    assert_eq!(count, Action::Empty);
}
