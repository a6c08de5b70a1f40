use term_chat::cbor::{read_arr, read_text, read_uint, write_arr, write_text, write_uint};
use term_chat::codec::{
    decode_client_message, decode_frame, decode_server_message, encode_client_message,
    encode_frame, encode_server_message, pack_record, unpack_record, CodecError,
};
use term_chat::{ClientId, ClientMessage, IpAddress, ServerMessage, SocketAddress};

fn bro_id() -> ClientId {
    ClientId {
        name: "Bro".to_string(),
        addr: SocketAddress {
            ip: IpAddress::V4 { a: 127, b: 0, c: 0, d: 1 },
            port: 69,
        },
    }
}

#[test]
fn test_compressed_cbor_stream() {
    // One record through the full write path and back: serialize, compress,
    // frame; then unframe, decompress, deserialize.
    let msg = ServerMessage::ReceiveMessage {
        sender: bro_id(),
        message: "Bro".to_string(),
    };
    let encoded = encode_server_message(&msg);
    let wire = pack_record(&encoded).unwrap();
    let payload = unpack_record(&wire).unwrap();
    assert_eq!(payload, encoded);
    let back = decode_server_message(&payload).unwrap();
    assert_eq!(back, msg);
}

#[test]
fn test_cbor_stream() {
    // One record through the plain (uncompressed) path and back.
    let msg = ClientMessage::SendMessage {
        message: "Bro".to_string(),
    };
    let encoded = encode_client_message(&msg);
    let framed = encode_frame(&encoded);
    let unframed = decode_frame(&framed).unwrap();
    assert_eq!(unframed, encoded);
    let back = decode_client_message(&unframed).unwrap();
    assert_eq!(back, msg);
}

#[test]
fn round_trip_client_messages() {
    let cases = vec![
        ClientMessage::JoinRequest {
            name: "alice".to_string(),
        },
        ClientMessage::JoinRequest {
            name: String::new(),
        },
        ClientMessage::SendMessage {
            message: "hi there \u{1F680} \u{00E9}\u{4E16}".to_string(),
        },
        ClientMessage::SendMessage {
            message: String::new(),
        },
    ];
    for msg in cases {
        let bytes = encode_client_message(&msg);
        assert_eq!(decode_client_message(&bytes).unwrap(), msg);
    }
}

#[test]
fn round_trip_server_messages() {
    let v6 = ClientId {
        name: "z\u{00FC}rich".to_string(),
        addr: SocketAddress {
            ip: IpAddress::V6 {
                s0: 0xfe80,
                s1: 0,
                s2: 0,
                s3: 0,
                s4: 1,
                s5: 2,
                s6: 3,
                s7: 4,
            },
            port: 65535,
        },
    };
    let cases = vec![
        ServerMessage::AcceptJoin,
        ServerMessage::ClientListUpdate { clients: vec![] },
        ServerMessage::ClientListUpdate {
            clients: vec![bro_id(), v6.clone()],
        },
        ServerMessage::ReceiveMessage {
            sender: v6,
            message: "hello".to_string(),
        },
    ];
    for msg in cases {
        let bytes = encode_server_message(&msg);
        assert_eq!(decode_server_message(&bytes).unwrap(), msg);
    }
}

#[test]
fn header_widths_round_trip() {
    // Counts at each header-width boundary survive a round trip.
    for v in [
        0u64,
        23,
        24,
        255,
        256,
        65535,
        65536,
        0xFFFF_FFFF,
        0x1_0000_0000,
        u64::MAX,
    ] {
        let mut buf: Vec<u8> = Vec::new();
        write_uint(v, &mut buf);
        let (got, end) = read_uint(&buf, 0).unwrap();
        assert_eq!(got, v);
        assert_eq!(end, buf.len());
    }
}

#[test]
fn text_round_trip_and_rejection() {
    let mut buf: Vec<u8> = Vec::new();
    write_text(&"\u{00E9}l\u{00E8}ve \u{1F680}".to_string(), &mut buf);
    let (s, end) = read_text(&buf, 0).unwrap();
    assert_eq!(s, "\u{00E9}l\u{00E8}ve \u{1F680}");
    assert_eq!(end, buf.len());

    // A text header whose payload is not UTF-8 is rejected.
    let bad: Vec<u8> = vec![0x62, 0xFF, 0xFE];
    assert!(read_text(&bad, 0).is_none());

    // A header announcing more bytes than remain is rejected.
    let truncated: Vec<u8> = vec![0x65, b'a'];
    assert!(read_text(&truncated, 0).is_none());
}

#[test]
fn array_header_round_trip() {
    let mut buf: Vec<u8> = Vec::new();
    write_arr(3, &mut buf);
    write_uint(7, &mut buf);
    let (n, p) = read_arr(&buf, 0).unwrap();
    assert_eq!(n, 3);
    let (v, _) = read_uint(&buf, p).unwrap();
    assert_eq!(v, 7);
}

#[test]
fn frame_errors_are_distinct() {
    // Too short for a length prefix.
    assert_eq!(
        decode_frame(&vec![0, 0, 1]).unwrap_err(),
        CodecError::BadLengthPrefix
    );
    // Prefix announces more than the buffer holds.
    assert_eq!(
        decode_frame(&vec![0, 0, 0, 2, 9]).unwrap_err(),
        CodecError::TruncatedFrame
    );
    // Trailing bytes after the announced payload.
    assert_eq!(
        decode_frame(&vec![0, 0, 0, 1, 9, 9]).unwrap_err(),
        CodecError::BadLengthPrefix
    );
}

#[test]
fn record_errors_are_distinct() {
    // A frame whose payload is no compressed block.
    let garbage = encode_frame(&vec![0xFF, 0xFF, 0xFF, 0xFF, 0xFF]);
    assert_eq!(
        unpack_record(&garbage).unwrap_err(),
        CodecError::DecompressionFailed
    );
    // A well-formed record whose payload is no message.
    let wire = pack_record(&vec![0xFF, 0xFF]).unwrap();
    let payload = unpack_record(&wire).unwrap();
    assert_eq!(payload, vec![0xFF, 0xFF]);
    assert_eq!(
        decode_client_message(&payload).unwrap_err(),
        CodecError::DeserializationFailed
    );
}

#[test]
fn compression_really_compresses() {
    // A repetitive payload comes out of the compressor smaller than it went
    // in, so the write path really runs the block compressor.
    let payload: Vec<u8> = std::iter::repeat(7u8).take(4096).collect();
    let wire = pack_record(&payload).unwrap();
    assert!(wire.len() < payload.len());
    assert_eq!(unpack_record(&wire).unwrap(), payload);
}

#[test]
fn empty_message_rejected() {
    assert_eq!(
        decode_client_message(&Vec::new()).unwrap_err(),
        CodecError::DeserializationFailed
    );
    assert_eq!(
        decode_server_message(&Vec::new()).unwrap_err(),
        CodecError::DeserializationFailed
    );
}
