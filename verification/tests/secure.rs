use term_chat::secure::{
    handshake_begin, handshake_complete, open_client_message, open_payload, open_server_message,
    seal_client_message, seal_payload, seal_server_message, Message, SecureStreamError,
};
use term_chat::{ClientId, ClientMessage, IpAddress, ServerMessage, SocketAddress};

fn handshake_pair() -> (term_chat::secure::SessionKey, term_chat::secure::SessionKey) {
    let (state_a, hello_a) = handshake_begin();
    let (state_b, hello_b) = handshake_begin();
    let key_a = handshake_complete(state_a, hello_b).unwrap();
    let key_b = handshake_complete(state_b, hello_a).unwrap();
    (key_a, key_b)
}

#[test]
fn test_handshake() {
    // Two peers exchange handshakes and then talk through the channel: what
    // one side seals under its derived key, the other opens under its own.
    let (key_a, key_b) = handshake_pair();

    let msg = ClientMessage::SendMessage {
        message: "Bro".to_string(),
    };
    let wire = seal_client_message(&key_a, &msg).unwrap();
    assert_eq!(open_client_message(&key_b, &wire).unwrap(), msg);

    let reply = ServerMessage::ReceiveMessage {
        sender: ClientId {
            name: "Bro".to_string(),
            addr: SocketAddress {
                ip: IpAddress::V4 { a: 127, b: 0, c: 0, d: 1 },
                port: 69,
            },
        },
        message: "Bro".to_string(),
    };
    let wire = seal_server_message(&key_b, &reply).unwrap();
    assert_eq!(open_server_message(&key_a, &wire).unwrap(), reply);
}

#[test]
fn handshake_rejects_wrong_phase() {
    let (state_a, _hello_a) = handshake_begin();
    let bogus = Message::Encrypted {
        data: vec![1, 2, 3],
        nonce: [0u8; 12],
    };
    match handshake_complete(state_a, bogus) {
        Err(SecureStreamError::ExpectedHandshake { .. }) => {}
        Err(other) => panic!("expected a protocol violation, got {:?}", other),
        Ok(_) => panic!("a non-handshake envelope was accepted"),
    }

    // A handshake envelope after establishment is a protocol violation too.
    let (key_a, _key_b) = handshake_pair();
    let late = Message::Handshake {
        public_key: vec![4u8; 10],
    };
    match open_payload(&key_a, late) {
        Err(SecureStreamError::AlreadyHandshaked { .. }) => {}
        other => panic!("expected a protocol violation, got {:?}", other),
    }
}

#[test]
fn handshake_rejects_bad_public_key() {
    let (state_a, _) = handshake_begin();
    let bogus = Message::Handshake {
        public_key: vec![0u8; 7],
    };
    match handshake_complete(state_a, bogus) {
        Err(SecureStreamError::InvalidPublicKey { bytes }) => assert_eq!(bytes, vec![0u8; 7]),
        Err(other) => panic!("expected an invalid key error, got {:?}", other),
        Ok(_) => panic!("a malformed public key was accepted"),
    }
}

#[test]
fn tampered_ciphertext_never_decrypts() {
    // Flipping any single bit of the ciphertext makes decryption fail;
    // it never succeeds with a wrong plaintext.
    let (key_a, key_b) = handshake_pair();
    let payload: Vec<u8> = b"attack at dawn".to_vec();
    let env = seal_payload(&key_a, &payload).unwrap();
    let (data, nonce) = match &env {
        Message::Encrypted { data, nonce } => (data.clone(), *nonce),
        _ => unreachable!(),
    };
    // The ciphertext is a real transformation: longer by the tag, and
    // nowhere equal to the plaintext.
    assert_eq!(data.len(), payload.len() + 16);
    assert_ne!(&data[..payload.len()], &payload[..]);

    for byte in 0..data.len() {
        let mut tampered = data.clone();
        tampered[byte] ^= 1;
        let env = Message::Encrypted {
            data: tampered,
            nonce,
        };
        match open_payload(&key_b, env) {
            Err(SecureStreamError::FailedDecryption { .. }) => {}
            other => panic!("tampered byte {} was accepted: {:?}", byte, other),
        }
    }
}

#[test]
fn tampered_nonce_never_decrypts() {
    let (key_a, key_b) = handshake_pair();
    let payload: Vec<u8> = b"roster".to_vec();
    let env = seal_payload(&key_a, &payload).unwrap();
    let (data, nonce) = match &env {
        Message::Encrypted { data, nonce } => (data.clone(), *nonce),
        _ => unreachable!(),
    };
    for byte in 0..nonce.len() {
        for bit in 0..8 {
            let mut bad = nonce;
            bad[byte] ^= 1 << bit;
            let env = Message::Encrypted {
                data: data.clone(),
                nonce: bad,
            };
            match open_payload(&key_b, env) {
                Err(SecureStreamError::FailedDecryption { .. }) => {}
                other => panic!("tampered nonce bit was accepted: {:?}", other),
            }
        }
    }
}

#[test]
fn foreign_key_never_decrypts() {
    // A channel keyed by a different handshake cannot read the traffic.
    let (key_a, _key_b) = handshake_pair();
    let (_key_c, key_d) = handshake_pair();
    let env = seal_payload(&key_a, &b"secret".to_vec()).unwrap();
    match open_payload(&key_d, env) {
        Err(SecureStreamError::FailedDecryption { .. }) => {}
        other => panic!("foreign key decrypted the payload: {:?}", other),
    }
}

#[test]
fn each_seal_uses_a_fresh_nonce() {
    let (key_a, _key_b) = handshake_pair();
    let payload: Vec<u8> = b"same payload".to_vec();
    let env1 = seal_payload(&key_a, &payload).unwrap();
    let env2 = seal_payload(&key_a, &payload).unwrap();
    let n1 = match env1 {
        Message::Encrypted { nonce, .. } => nonce,
        _ => unreachable!(),
    };
    let n2 = match env2 {
        Message::Encrypted { nonce, .. } => nonce,
        _ => unreachable!(),
    };
    assert_ne!(n1, n2);
}
