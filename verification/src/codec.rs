//! Record codec: compact binary encoding of the protocol's records, block
//! compression, and length-delimited framing.
//!
//! A record travels as `[4-byte big-endian length][payload]`, where the
//! payload is the block-compressed binary encoding of the record.  The
//! encodings of [`ClientMessage`] and [`ServerMessage`] defined here are the
//! plaintexts that the secure channel encrypts.  Every decoder either
//! returns the unique record a well-formed buffer encodes or reports a
//! distinct error; none panics or drops bytes silently.
use vstd::prelude::*;

verus! {

use vstd::utf8::encode_utf8;
use crate::{ClientId, ClientIdV, ClientMessage, ClientMessageV, IpAddress, ServerMessage,
    ServerMessageV, SocketAddress, id_views};
use crate::cbor::{enc_uint, dec_uint, enc_text, dec_text, enc_arr, dec_arr, lemma_dec_uint,
    lemma_dec_text, lemma_dec_arr, lemma_recompose4, write_uint, write_text, write_arr, read_uint,
    read_text, read_arr, copy_range, append_bytes};

/// How decoding a record can fail.  Each failure of the read path yields a
/// distinct variant; the connection that produced the bytes is torn down.
#[derive(Clone, Copy, Debug, PartialEq, Eq, Structural)]
pub enum CodecError {
    /// The buffer does not start with a length prefix that matches it.
    BadLengthPrefix,
    /// The buffer ends before the announced payload does.
    TruncatedFrame,
    /// Block compression refused the payload.
    CompressionFailed,
    /// The payload is not a well-formed compressed block.
    DecompressionFailed,
    /// The decompressed payload is not a well-formed record.
    DeserializationFailed,
}

/// A text whose UTF-8 encoding has a length a header can carry.  Every text
/// held in memory satisfies this; it bounds only the mathematical values.
pub open spec fn wf_text(t: Seq<char>) -> bool {
    encode_utf8(t).len() < 0x10000000000000000
}

pub open spec fn wf_client_id(c: ClientIdV) -> bool {
    wf_text(c.name)
}

pub open spec fn wf_client_msg(m: ClientMessageV) -> bool {
    match m {
        ClientMessageV::JoinRequest { name } => wf_text(name),
        ClientMessageV::SendMessage { message } => wf_text(message),
    }
}

pub open spec fn wf_server_msg(m: ServerMessageV) -> bool {
    match m {
        ServerMessageV::AcceptJoin => true,
        ServerMessageV::ClientListUpdate { clients } => clients.len() < 0x10000000000000000
            && forall|i: int| 0 <= i < clients.len() ==> wf_client_id(#[trigger] clients[i]),
        ServerMessageV::ReceiveMessage { sender, message } => wf_client_id(sender) && wf_text(
            message,
        ),
    }
}

// ---------------------------------------------------------------------------
// Socket addresses
// ---------------------------------------------------------------------------
/// Encoding of a socket address: an array of the address's octets or
/// segments followed by the port, 5 elements for IPv4 and 9 for IPv6.
pub open spec fn enc_addr(a: SocketAddress) -> Seq<u8> {
    match a.ip {
        IpAddress::V4 { a: x0, b: x1, c: x2, d: x3 } => enc_arr(5) + enc_uint(x0 as int) + enc_uint(
            x1 as int,
        ) + enc_uint(x2 as int) + enc_uint(x3 as int) + enc_uint(a.port as int),
        IpAddress::V6 { s0, s1, s2, s3, s4, s5, s6, s7 } => enc_arr(9) + enc_uint(s0 as int)
            + enc_uint(s1 as int) + enc_uint(s2 as int) + enc_uint(s3 as int) + enc_uint(s4 as int)
            + enc_uint(s5 as int) + enc_uint(s6 as int) + enc_uint(s7 as int) + enc_uint(
            a.port as int,
        ),
    }
}

/// Decode an unsigned integer that must fit in a byte.
pub open spec fn dec_u8(s: Seq<u8>) -> Option<(u8, Seq<u8>)> {
    match dec_uint(s) {
        Some((v, r)) => if v < 0x100 {
            Some((v as u8, r))
        } else {
            None
        },
        None => None,
    }
}

/// Decode an unsigned integer that must fit in 16 bits.
pub open spec fn dec_u16(s: Seq<u8>) -> Option<(u16, Seq<u8>)> {
    match dec_uint(s) {
        Some((v, r)) => if v < 0x10000 {
            Some((v as u16, r))
        } else {
            None
        },
        None => None,
    }
}

/// Decode a socket address from the front of `s`.
pub open spec fn dec_addr(s: Seq<u8>) -> Option<(SocketAddress, Seq<u8>)> {
    match dec_arr(s) {
        Some((n, r0)) => if n == 5 {
            match dec_u8(r0) {
                Some((x0, r1)) => match dec_u8(r1) {
                    Some((x1, r2)) => match dec_u8(r2) {
                        Some((x2, r3)) => match dec_u8(r3) {
                            Some((x3, r4)) => match dec_u16(r4) {
                                Some((port, r5)) => Some(
                                    (
                                        SocketAddress {
                                            ip: IpAddress::V4 { a: x0, b: x1, c: x2, d: x3 },
                                            port,
                                        },
                                        r5,
                                    ),
                                ),
                                None => None,
                            },
                            None => None,
                        },
                        None => None,
                    },
                    None => None,
                },
                None => None,
            }
        } else if n == 9 {
            match dec_u16(r0) {
                Some((s0, r1)) => match dec_u16(r1) {
                    Some((s1, r2)) => match dec_u16(r2) {
                        Some((s2, r3)) => match dec_u16(r3) {
                            Some((s3, r4)) => match dec_u16(r4) {
                                Some((s4, r5)) => match dec_u16(r5) {
                                    Some((s5, r6)) => match dec_u16(r6) {
                                        Some((s6, r7)) => match dec_u16(r7) {
                                            Some((s7, r8)) => match dec_u16(r8) {
                                                Some((port, r9)) => Some(
                                                    (
                                                        SocketAddress {
                                                            ip: IpAddress::V6 {
                                                                s0,
                                                                s1,
                                                                s2,
                                                                s3,
                                                                s4,
                                                                s5,
                                                                s6,
                                                                s7,
                                                            },
                                                            port,
                                                        },
                                                        r9,
                                                    ),
                                                ),
                                                None => None,
                                            },
                                            None => None,
                                        },
                                        None => None,
                                    },
                                    None => None,
                                },
                                None => None,
                            },
                            None => None,
                        },
                        None => None,
                    },
                    None => None,
                },
                None => None,
            }
        } else {
            None
        },
        None => None,
    }
}

pub proof fn lemma_dec_u8(v: u8, rest: Seq<u8>)
    ensures
        dec_u8(enc_uint(v as int) + rest) == Some((v, rest)),
{
    lemma_dec_uint(v as int, rest);
}

pub proof fn lemma_dec_u16(v: u16, rest: Seq<u8>)
    ensures
        dec_u16(enc_uint(v as int) + rest) == Some((v, rest)),
{
    lemma_dec_uint(v as int, rest);
}

/// Decoding an encoded socket address yields the address back.
pub proof fn lemma_dec_addr(a: SocketAddress, rest: Seq<u8>)
    ensures
        dec_addr(enc_addr(a) + rest) == Some((a, rest)),
{
    match a.ip {
        IpAddress::V4 { a: x0, b: x1, c: x2, d: x3 } => {
            let t4 = enc_uint(a.port as int);
            let t3 = enc_uint(x3 as int) + t4;
            let t2 = enc_uint(x2 as int) + t3;
            let t1 = enc_uint(x1 as int) + t2;
            let t0 = enc_uint(x0 as int) + t1;
            assert(enc_addr(a) + rest =~= enc_arr(5) + (t0 + rest));
            assert(t0 + rest =~= enc_uint(x0 as int) + (t1 + rest));
            assert(t1 + rest =~= enc_uint(x1 as int) + (t2 + rest));
            assert(t2 + rest =~= enc_uint(x2 as int) + (t3 + rest));
            assert(t3 + rest =~= enc_uint(x3 as int) + (t4 + rest));
            lemma_dec_arr(5, t0 + rest);
            lemma_dec_u8(x0, t1 + rest);
            lemma_dec_u8(x1, t2 + rest);
            lemma_dec_u8(x2, t3 + rest);
            lemma_dec_u8(x3, t4 + rest);
            lemma_dec_u16(a.port, rest);
        },
        IpAddress::V6 { s0, s1, s2, s3, s4, s5, s6, s7 } => {
            let t8 = enc_uint(a.port as int);
            let t7 = enc_uint(s7 as int) + t8;
            let t6 = enc_uint(s6 as int) + t7;
            let t5 = enc_uint(s5 as int) + t6;
            let t4 = enc_uint(s4 as int) + t5;
            let t3 = enc_uint(s3 as int) + t4;
            let t2 = enc_uint(s2 as int) + t3;
            let t1 = enc_uint(s1 as int) + t2;
            let t0 = enc_uint(s0 as int) + t1;
            assert(enc_addr(a) + rest =~= enc_arr(9) + (t0 + rest));
            assert(t0 + rest =~= enc_uint(s0 as int) + (t1 + rest));
            assert(t1 + rest =~= enc_uint(s1 as int) + (t2 + rest));
            assert(t2 + rest =~= enc_uint(s2 as int) + (t3 + rest));
            assert(t3 + rest =~= enc_uint(s3 as int) + (t4 + rest));
            assert(t4 + rest =~= enc_uint(s4 as int) + (t5 + rest));
            assert(t5 + rest =~= enc_uint(s5 as int) + (t6 + rest));
            assert(t6 + rest =~= enc_uint(s6 as int) + (t7 + rest));
            assert(t7 + rest =~= enc_uint(s7 as int) + (t8 + rest));
            lemma_dec_arr(9, t0 + rest);
            lemma_dec_u16(s0, t1 + rest);
            lemma_dec_u16(s1, t2 + rest);
            lemma_dec_u16(s2, t3 + rest);
            lemma_dec_u16(s3, t4 + rest);
            lemma_dec_u16(s4, t5 + rest);
            lemma_dec_u16(s5, t6 + rest);
            lemma_dec_u16(s6, t7 + rest);
            lemma_dec_u16(s7, t8 + rest);
            lemma_dec_u16(a.port, rest);
        },
    }
}

/// Append the encoding of a socket address.
pub fn encode_addr(a: &SocketAddress, out: &mut Vec<u8>)
    ensures
        final(out)@ == old(out)@ + enc_addr(*a),
{
    match a.ip {
        IpAddress::V4 { a: x0, b: x1, c: x2, d: x3 } => {
            write_arr(5, out);
            write_uint(x0 as u64, out);
            write_uint(x1 as u64, out);
            write_uint(x2 as u64, out);
            write_uint(x3 as u64, out);
            write_uint(a.port as u64, out);
        },
        IpAddress::V6 { s0, s1, s2, s3, s4, s5, s6, s7 } => {
            write_arr(9, out);
            write_uint(s0 as u64, out);
            write_uint(s1 as u64, out);
            write_uint(s2 as u64, out);
            write_uint(s3 as u64, out);
            write_uint(s4 as u64, out);
            write_uint(s5 as u64, out);
            write_uint(s6 as u64, out);
            write_uint(s7 as u64, out);
            write_uint(a.port as u64, out);
        },
    }
    assert(out@ =~= old(out)@ + enc_addr(*a));
}

/// Read an unsigned integer that must fit in a byte.
pub fn read_u8_at(s: &Vec<u8>, pos: usize) -> (r: Option<(u8, usize)>)
    requires
        pos <= s@.len(),
    ensures
        r matches Some(t) ==> pos < t.1 <= s@.len() && dec_u8(s@.skip(pos as int)) == Some(
            (t.0, s@.skip(t.1 as int)),
        ),
        r is None ==> dec_u8(s@.skip(pos as int)) is None,
{
    match read_uint(s, pos) {
        Some((v, end)) => if v < 0x100 {
            Some((v as u8, end))
        } else {
            None
        },
        None => None,
    }
}

/// Read an unsigned integer that must fit in 16 bits.
pub fn read_u16_at(s: &Vec<u8>, pos: usize) -> (r: Option<(u16, usize)>)
    requires
        pos <= s@.len(),
    ensures
        r matches Some(t) ==> pos < t.1 <= s@.len() && dec_u16(s@.skip(pos as int)) == Some(
            (t.0, s@.skip(t.1 as int)),
        ),
        r is None ==> dec_u16(s@.skip(pos as int)) is None,
{
    match read_uint(s, pos) {
        Some((v, end)) => if v < 0x10000 {
            Some((v as u16, end))
        } else {
            None
        },
        None => None,
    }
}

/// Read a socket address at `pos`.
pub fn read_addr(s: &Vec<u8>, pos: usize) -> (r: Option<(SocketAddress, usize)>)
    requires
        pos <= s@.len(),
    ensures
        r matches Some(t) ==> pos < t.1 <= s@.len() && dec_addr(s@.skip(pos as int)) == Some(
            (t.0, s@.skip(t.1 as int)),
        ),
        r is None ==> dec_addr(s@.skip(pos as int)) is None,
{
    let (n, p0) = match read_arr(s, pos) {
        Some(t) => t,
        None => {
            return None;
        },
    };
    if n == 5 {
        let (x0, p1) = match read_u8_at(s, p0) {
            Some(t) => t,
            None => {
                return None;
            },
        };
        let (x1, p2) = match read_u8_at(s, p1) {
            Some(t) => t,
            None => {
                return None;
            },
        };
        let (x2, p3) = match read_u8_at(s, p2) {
            Some(t) => t,
            None => {
                return None;
            },
        };
        let (x3, p4) = match read_u8_at(s, p3) {
            Some(t) => t,
            None => {
                return None;
            },
        };
        let (port, p5) = match read_u16_at(s, p4) {
            Some(t) => t,
            None => {
                return None;
            },
        };
        Some((SocketAddress { ip: IpAddress::V4 { a: x0, b: x1, c: x2, d: x3 }, port }, p5))
    } else if n == 9 {
        let (s0, p1) = match read_u16_at(s, p0) {
            Some(t) => t,
            None => {
                return None;
            },
        };
        let (s1, p2) = match read_u16_at(s, p1) {
            Some(t) => t,
            None => {
                return None;
            },
        };
        let (s2, p3) = match read_u16_at(s, p2) {
            Some(t) => t,
            None => {
                return None;
            },
        };
        let (s3, p4) = match read_u16_at(s, p3) {
            Some(t) => t,
            None => {
                return None;
            },
        };
        let (s4, p5) = match read_u16_at(s, p4) {
            Some(t) => t,
            None => {
                return None;
            },
        };
        let (s5, p6) = match read_u16_at(s, p5) {
            Some(t) => t,
            None => {
                return None;
            },
        };
        let (s6, p7) = match read_u16_at(s, p6) {
            Some(t) => t,
            None => {
                return None;
            },
        };
        let (s7, p8) = match read_u16_at(s, p7) {
            Some(t) => t,
            None => {
                return None;
            },
        };
        let (port, p9) = match read_u16_at(s, p8) {
            Some(t) => t,
            None => {
                return None;
            },
        };
        Some((SocketAddress { ip: IpAddress::V6 { s0, s1, s2, s3, s4, s5, s6, s7 }, port }, p9))
    } else {
        None
    }
}

// ---------------------------------------------------------------------------
// Client identities
// ---------------------------------------------------------------------------
/// Encoding of a client identity: a 2-element array of name and address.
pub open spec fn enc_client_id(c: ClientIdV) -> Seq<u8> {
    enc_arr(2) + enc_text(c.name) + enc_addr(c.addr)
}

/// Decode a client identity from the front of `s`.
pub open spec fn dec_client_id(s: Seq<u8>) -> Option<(ClientIdV, Seq<u8>)> {
    match dec_arr(s) {
        Some((n, r0)) => if n == 2 {
            match dec_text(r0) {
                Some((name, r1)) => match dec_addr(r1) {
                    Some((addr, r2)) => Some((ClientIdV { name, addr }, r2)),
                    None => None,
                },
                None => None,
            }
        } else {
            None
        },
        None => None,
    }
}

/// Decoding an encoded client identity yields the identity back.
pub proof fn lemma_dec_client_id(c: ClientIdV, rest: Seq<u8>)
    requires
        wf_client_id(c),
    ensures
        dec_client_id(enc_client_id(c) + rest) == Some((c, rest)),
{
    let t1 = enc_addr(c.addr);
    let t0 = enc_text(c.name) + t1;
    assert(enc_client_id(c) + rest =~= enc_arr(2) + (t0 + rest));
    assert(t0 + rest =~= enc_text(c.name) + (t1 + rest));
    lemma_dec_arr(2, t0 + rest);
    lemma_dec_text(c.name, t1 + rest);
    lemma_dec_addr(c.addr, rest);
}

/// Append the encoding of a client identity.
pub fn encode_client_id(c: &ClientId, out: &mut Vec<u8>)
    ensures
        final(out)@ == old(out)@ + enc_client_id(c@),
        wf_client_id(c@),
{
    write_arr(2, out);
    write_text(&c.name, out);
    encode_addr(&c.addr, out);
    assert(out@ =~= old(out)@ + enc_client_id(c@));
}

/// Read a client identity at `pos`.
pub fn read_client_id(s: &Vec<u8>, pos: usize) -> (r: Option<(ClientId, usize)>)
    requires
        pos <= s@.len(),
    ensures
        r matches Some(t) ==> pos < t.1 <= s@.len() && dec_client_id(s@.skip(pos as int)) == Some(
            (t.0@, s@.skip(t.1 as int)),
        ),
        r is None ==> dec_client_id(s@.skip(pos as int)) is None,
{
    let (n, p0) = match read_arr(s, pos) {
        Some(t) => t,
        None => {
            return None;
        },
    };
    if n != 2 {
        return None;
    }
    let (name, p1) = match read_text(s, p0) {
        Some(t) => t,
        None => {
            return None;
        },
    };
    let (addr, p2) = match read_addr(s, p1) {
        Some(t) => t,
        None => {
            return None;
        },
    };
    Some((ClientId { name, addr }, p2))
}

// ---------------------------------------------------------------------------
// Rosters: sequences of client identities
// ---------------------------------------------------------------------------
/// Encoding of a roster: the identity encodings in order, back to back.
pub open spec fn enc_id_list(l: Seq<ClientIdV>) -> Seq<u8>
    decreases l.len(),
{
    if l.len() == 0 {
        Seq::empty()
    } else {
        enc_client_id(l[0]) + enc_id_list(l.skip(1))
    }
}

/// Decode exactly `n` client identities from the front of `s`.
pub open spec fn dec_id_list(s: Seq<u8>, n: nat) -> Option<(Seq<ClientIdV>, Seq<u8>)>
    decreases n,
{
    if n == 0 {
        Some((Seq::empty(), s))
    } else {
        match dec_client_id(s) {
            Some((c, r)) => match dec_id_list(r, (n - 1) as nat) {
                Some((l, r2)) => Some((seq![c] + l, r2)),
                None => None,
            },
            None => None,
        }
    }
}

/// The roster encoding splits at any index.
pub proof fn lemma_enc_id_list_split(l: Seq<ClientIdV>, i: int)
    requires
        0 <= i <= l.len(),
    ensures
        enc_id_list(l) == enc_id_list(l.take(i)) + enc_id_list(l.skip(i)),
    decreases i,
{
    if i == 0 {
        assert(l.take(0) =~= Seq::<ClientIdV>::empty());
        assert(l.skip(0) =~= l);
        assert(enc_id_list(l.take(0)) + enc_id_list(l) =~= enc_id_list(l));
    } else {
        lemma_enc_id_list_split(l.skip(1), i - 1);
        assert(l.take(i)[0] == l[0]);
        assert(l.take(i).skip(1) =~= l.skip(1).take(i - 1));
        assert(l.skip(i) =~= l.skip(1).skip(i - 1));
        assert(enc_id_list(l) =~= (enc_client_id(l[0]) + enc_id_list(l.skip(1).take(i - 1)))
            + enc_id_list(l.skip(1).skip(i - 1)));
        assert(enc_id_list(l.take(i)) =~= enc_client_id(l[0]) + enc_id_list(l.skip(1).take(i - 1)));
    }
}

/// Decoding an encoded roster of known length yields the roster back.
pub proof fn lemma_dec_id_list(l: Seq<ClientIdV>, rest: Seq<u8>)
    requires
        forall|i: int| 0 <= i < l.len() ==> wf_client_id(#[trigger] l[i]),
    ensures
        dec_id_list(enc_id_list(l) + rest, l.len() as nat) == Some((l, rest)),
    decreases l.len(),
{
    if l.len() == 0 {
        assert(enc_id_list(l) + rest =~= rest);
    } else {
        assert(enc_id_list(l) + rest =~= enc_client_id(l[0]) + (enc_id_list(l.skip(1)) + rest));
        lemma_dec_client_id(l[0], enc_id_list(l.skip(1)) + rest);
        lemma_dec_id_list(l.skip(1), rest);
        assert(seq![l[0]] + l.skip(1) =~= l);
    }
}

// ---------------------------------------------------------------------------
// Client messages
// ---------------------------------------------------------------------------
/// Encoding of a client message: a 2-element array of a variant tag and the
/// carried text.
pub open spec fn enc_client_msg(m: ClientMessageV) -> Seq<u8> {
    match m {
        ClientMessageV::JoinRequest { name } => enc_arr(2) + enc_uint(0) + enc_text(name),
        ClientMessageV::SendMessage { message } => enc_arr(2) + enc_uint(1) + enc_text(message),
    }
}

/// Decode a client message from the front of `s`.
pub open spec fn dec_client_msg(s: Seq<u8>) -> Option<(ClientMessageV, Seq<u8>)> {
    match dec_arr(s) {
        Some((n, r0)) => if n == 2 {
            match dec_uint(r0) {
                Some((tag, r1)) => if tag == 0 {
                    match dec_text(r1) {
                        Some((name, r2)) => Some((ClientMessageV::JoinRequest { name }, r2)),
                        None => None,
                    }
                } else if tag == 1 {
                    match dec_text(r1) {
                        Some((message, r2)) => Some((ClientMessageV::SendMessage { message }, r2)),
                        None => None,
                    }
                } else {
                    None
                },
                None => None,
            }
        } else {
            None
        },
        None => None,
    }
}

/// Decode a buffer that must hold exactly one client message.
pub open spec fn dec_client_msg_full(s: Seq<u8>) -> Option<ClientMessageV> {
    match dec_client_msg(s) {
        Some((m, rest)) => if rest.len() == 0 {
            Some(m)
        } else {
            None
        },
        None => None,
    }
}

/// Round trip: decoding the encoding of any client message yields the
/// message back.
pub proof fn lemma_client_message_round_trip(m: ClientMessageV)
    requires
        wf_client_msg(m),
    ensures
        dec_client_msg_full(enc_client_msg(m)) == Some(m),
{
    match m {
        ClientMessageV::JoinRequest { name } => {
            let t1 = enc_text(name);
            let t0 = enc_uint(0) + t1;
            assert(enc_client_msg(m) =~= enc_arr(2) + (t0 + Seq::<u8>::empty()));
            assert(t0 + Seq::<u8>::empty() =~= enc_uint(0) + (t1 + Seq::<u8>::empty()));
            assert(t1 + Seq::<u8>::empty() =~= enc_text(name) + Seq::<u8>::empty());
            lemma_dec_arr(2, t0 + Seq::<u8>::empty());
            lemma_dec_uint(0, t1 + Seq::<u8>::empty());
            lemma_dec_text(name, Seq::<u8>::empty());
        },
        ClientMessageV::SendMessage { message } => {
            let t1 = enc_text(message);
            let t0 = enc_uint(1) + t1;
            assert(enc_client_msg(m) =~= enc_arr(2) + (t0 + Seq::<u8>::empty()));
            assert(t0 + Seq::<u8>::empty() =~= enc_uint(1) + (t1 + Seq::<u8>::empty()));
            assert(t1 + Seq::<u8>::empty() =~= enc_text(message) + Seq::<u8>::empty());
            lemma_dec_arr(2, t0 + Seq::<u8>::empty());
            lemma_dec_uint(1, t1 + Seq::<u8>::empty());
            lemma_dec_text(message, Seq::<u8>::empty());
        },
    }
}

/// Serialize a client message.
pub fn encode_client_message(m: &ClientMessage) -> (r: Vec<u8>)
    ensures
        r@ == enc_client_msg(m@),
        wf_client_msg(m@),
{
    let mut out: Vec<u8> = Vec::new();
    write_arr(2, &mut out);
    match m {
        ClientMessage::JoinRequest { name } => {
            write_uint(0, &mut out);
            write_text(name, &mut out);
        },
        ClientMessage::SendMessage { message } => {
            write_uint(1, &mut out);
            write_text(message, &mut out);
        },
    }
    assert(out@ =~= enc_client_msg(m@));
    out
}

/// Deserialize a buffer that must hold exactly one client message.
pub fn decode_client_message(bytes: &Vec<u8>) -> (r: Result<ClientMessage, CodecError>)
    ensures
        r matches Ok(m) ==> dec_client_msg_full(bytes@) == Some(m@),
        r matches Err(e) ==> e == CodecError::DeserializationFailed && dec_client_msg_full(bytes@)
            is None,
{
    assert(bytes@.skip(0) =~= bytes@);
    let (n, p0) = match read_arr(bytes, 0) {
        Some(t) => t,
        None => {
            return Err(CodecError::DeserializationFailed);
        },
    };
    if n != 2 {
        return Err(CodecError::DeserializationFailed);
    }
    let (tag, p1) = match read_uint(bytes, p0) {
        Some(t) => t,
        None => {
            return Err(CodecError::DeserializationFailed);
        },
    };
    if tag > 1 {
        return Err(CodecError::DeserializationFailed);
    }
    let (text, p2) = match read_text(bytes, p1) {
        Some(t) => t,
        None => {
            return Err(CodecError::DeserializationFailed);
        },
    };
    if p2 != bytes.len() {
        return Err(CodecError::DeserializationFailed);
    }
    assert(bytes@.skip(p2 as int) =~= Seq::<u8>::empty());
    if tag == 0 {
        Ok(ClientMessage::JoinRequest { name: text })
    } else {
        Ok(ClientMessage::SendMessage { message: text })
    }
}

// ---------------------------------------------------------------------------
// Server messages
// ---------------------------------------------------------------------------
/// Encoding of a server message: an array of a variant tag and the
/// variant's fields; a roster is a nested array.
pub open spec fn enc_server_msg(m: ServerMessageV) -> Seq<u8> {
    match m {
        ServerMessageV::AcceptJoin => enc_arr(1) + enc_uint(0),
        ServerMessageV::ClientListUpdate { clients } => enc_arr(2) + enc_uint(1) + enc_arr(
            clients.len() as int,
        ) + enc_id_list(clients),
        ServerMessageV::ReceiveMessage { sender, message } => enc_arr(3) + enc_uint(2)
            + enc_client_id(sender) + enc_text(message),
    }
}

/// Decode a server message from the front of `s`.
pub open spec fn dec_server_msg(s: Seq<u8>) -> Option<(ServerMessageV, Seq<u8>)> {
    match dec_arr(s) {
        Some((n, r0)) => match dec_uint(r0) {
            Some((tag, r1)) => if tag == 0 && n == 1 {
                Some((ServerMessageV::AcceptJoin, r1))
            } else if tag == 1 && n == 2 {
                match dec_arr(r1) {
                    Some((cnt, r2)) => match dec_id_list(r2, cnt as nat) {
                        Some((clients, r3)) => Some(
                            (ServerMessageV::ClientListUpdate { clients }, r3),
                        ),
                        None => None,
                    },
                    None => None,
                }
            } else if tag == 2 && n == 3 {
                match dec_client_id(r1) {
                    Some((sender, r2)) => match dec_text(r2) {
                        Some((message, r3)) => Some(
                            (ServerMessageV::ReceiveMessage { sender, message }, r3),
                        ),
                        None => None,
                    },
                    None => None,
                }
            } else {
                None
            },
            None => None,
        },
        None => None,
    }
}

/// Decode a buffer that must hold exactly one server message.
pub open spec fn dec_server_msg_full(s: Seq<u8>) -> Option<ServerMessageV> {
    match dec_server_msg(s) {
        Some((m, rest)) => if rest.len() == 0 {
            Some(m)
        } else {
            None
        },
        None => None,
    }
}

/// Round trip: decoding the encoding of any server message yields the
/// message back.
pub proof fn lemma_server_message_round_trip(m: ServerMessageV)
    requires
        wf_server_msg(m),
    ensures
        dec_server_msg_full(enc_server_msg(m)) == Some(m),
{
    match m {
        ServerMessageV::AcceptJoin => {
            assert(enc_server_msg(m) =~= enc_arr(1) + (enc_uint(0) + Seq::<u8>::empty()));
            lemma_dec_arr(1, enc_uint(0) + Seq::<u8>::empty());
            lemma_dec_uint(0, Seq::<u8>::empty());
            assert(enc_uint(0) + Seq::<u8>::empty() =~= enc_uint(0));
        },
        ServerMessageV::ClientListUpdate { clients } => {
            let t2 = enc_id_list(clients);
            let t1 = enc_arr(clients.len() as int) + t2;
            let t0 = enc_uint(1) + t1;
            assert(enc_server_msg(m) =~= enc_arr(2) + (t0 + Seq::<u8>::empty()));
            assert(t0 + Seq::<u8>::empty() =~= enc_uint(1) + (t1 + Seq::<u8>::empty()));
            assert(t1 + Seq::<u8>::empty() =~= enc_arr(clients.len() as int) + (t2
                + Seq::<u8>::empty()));
            lemma_dec_arr(2, t0 + Seq::<u8>::empty());
            lemma_dec_uint(1, t1 + Seq::<u8>::empty());
            lemma_dec_arr(clients.len() as int, t2 + Seq::<u8>::empty());
            lemma_dec_id_list(clients, Seq::<u8>::empty());
        },
        ServerMessageV::ReceiveMessage { sender, message } => {
            let t2 = enc_text(message);
            let t1 = enc_client_id(sender) + t2;
            let t0 = enc_uint(2) + t1;
            assert(enc_server_msg(m) =~= enc_arr(3) + (t0 + Seq::<u8>::empty()));
            assert(t0 + Seq::<u8>::empty() =~= enc_uint(2) + (t1 + Seq::<u8>::empty()));
            assert(t1 + Seq::<u8>::empty() =~= enc_client_id(sender) + (t2 + Seq::<u8>::empty()));
            assert(t2 + Seq::<u8>::empty() =~= enc_text(message) + Seq::<u8>::empty());
            lemma_dec_arr(3, t0 + Seq::<u8>::empty());
            lemma_dec_uint(2, t1 + Seq::<u8>::empty());
            lemma_dec_client_id(sender, t2 + Seq::<u8>::empty());
            lemma_dec_text(message, Seq::<u8>::empty());
        },
    }
}

/// Serialize a server message.
pub fn encode_server_message(m: &ServerMessage) -> (r: Vec<u8>)
    ensures
        r@ == enc_server_msg(m@),
        wf_server_msg(m@),
{
    let mut out: Vec<u8> = Vec::new();
    match m {
        ServerMessage::AcceptJoin => {
            write_arr(1, &mut out);
            write_uint(0, &mut out);
        },
        ServerMessage::ClientListUpdate { clients } => {
            write_arr(2, &mut out);
            write_uint(1, &mut out);
            write_arr(clients.len() as u64, &mut out);
            let ghost cv = id_views(clients@);
            let ghost base = out@;
            let mut i: usize = 0;
            while i < clients.len()
                invariant
                    i <= clients@.len(),
                    cv == id_views(clients@),
                    cv.len() == clients@.len(),
                    out@ == base + enc_id_list(cv.take(i as int)),
                    forall|j: int| 0 <= j < i ==> wf_client_id(#[trigger] cv[j]),
                decreases clients@.len() - i,
            {
                encode_client_id(&clients[i], &mut out);
                proof {
                    lemma_enc_id_list_split(cv.take(i + 1), i as int);
                    assert(cv.take(i + 1).take(i as int) =~= cv.take(i as int));
                    assert(cv.take(i + 1).skip(i as int) =~= seq![cv[i as int]]);
                    assert(seq![cv[i as int]].skip(1) =~= Seq::<ClientIdV>::empty());
                    assert(enc_id_list(Seq::<ClientIdV>::empty()) == Seq::<u8>::empty());
                    assert(enc_id_list(seq![cv[i as int]]) == enc_client_id(seq![cv[i as int]][0])
                        + enc_id_list(seq![cv[i as int]].skip(1)));
                    assert(enc_id_list(seq![cv[i as int]]) =~= enc_client_id(cv[i as int]));
                    assert(out@ =~= base + enc_id_list(cv.take(i + 1)));
                }
                i = i + 1;
            }
            assert(cv.take(clients@.len() as int) =~= cv);
        },
        ServerMessage::ReceiveMessage { sender, message } => {
            write_arr(3, &mut out);
            write_uint(2, &mut out);
            encode_client_id(sender, &mut out);
            write_text(message, &mut out);
        },
    }
    assert(out@ =~= enc_server_msg(m@));
    out
}

/// Deserialize a buffer that must hold exactly one server message.
pub fn decode_server_message(bytes: &Vec<u8>) -> (r: Result<ServerMessage, CodecError>)
    ensures
        r matches Ok(m) ==> dec_server_msg_full(bytes@) == Some(m@),
        r matches Err(e) ==> e == CodecError::DeserializationFailed && dec_server_msg_full(bytes@)
            is None,
{
    assert(bytes@.skip(0) =~= bytes@);
    let (n, p0) = match read_arr(bytes, 0) {
        Some(t) => t,
        None => {
            return Err(CodecError::DeserializationFailed);
        },
    };
    let (tag, p1) = match read_uint(bytes, p0) {
        Some(t) => t,
        None => {
            return Err(CodecError::DeserializationFailed);
        },
    };
    if tag == 0 && n == 1 {
        if p1 != bytes.len() {
            return Err(CodecError::DeserializationFailed);
        }
        assert(bytes@.skip(p1 as int) =~= Seq::<u8>::empty());
        Ok(ServerMessage::AcceptJoin)
    } else if tag == 1 && n == 2 {
        let (cnt, p2) = match read_arr(bytes, p1) {
            Some(t) => t,
            None => {
                return Err(CodecError::DeserializationFailed);
            },
        };
        let (clients, p3) = match read_id_list(bytes, p2, cnt) {
            Some(t) => t,
            None => {
                return Err(CodecError::DeserializationFailed);
            },
        };
        if p3 != bytes.len() {
            return Err(CodecError::DeserializationFailed);
        }
        assert(bytes@.skip(p3 as int) =~= Seq::<u8>::empty());
        Ok(ServerMessage::ClientListUpdate { clients })
    } else if tag == 2 && n == 3 {
        let (sender, p2) = match read_client_id(bytes, p1) {
            Some(t) => t,
            None => {
                return Err(CodecError::DeserializationFailed);
            },
        };
        let (message, p3) = match read_text(bytes, p2) {
            Some(t) => t,
            None => {
                return Err(CodecError::DeserializationFailed);
            },
        };
        if p3 != bytes.len() {
            return Err(CodecError::DeserializationFailed);
        }
        assert(bytes@.skip(p3 as int) =~= Seq::<u8>::empty());
        Ok(ServerMessage::ReceiveMessage { sender, message })
    } else {
        Err(CodecError::DeserializationFailed)
    }
}

/// Read exactly `n` client identities at `pos`.
fn read_id_list(s: &Vec<u8>, pos: usize, n: u64) -> (r: Option<(Vec<ClientId>, usize)>)
    requires
        pos <= s@.len(),
    ensures
        r matches Some(t) ==> pos <= t.1 <= s@.len() && dec_id_list(s@.skip(pos as int), n as nat)
            == Some((id_views(t.0@), s@.skip(t.1 as int))),
        r is None ==> dec_id_list(s@.skip(pos as int), n as nat) is None,
{
    let mut acc: Vec<ClientId> = Vec::new();
    let mut cur: usize = pos;
    let mut i: u64 = 0;
    while i < n
        invariant
            i <= n,
            pos <= cur <= s@.len(),
            acc@.len() == i,
            dec_id_list(s@.skip(pos as int), n as nat) == (match dec_id_list(
                s@.skip(cur as int),
                (n - i) as nat,
            ) {
                Some(t) => Some((id_views(acc@) + t.0, t.1)),
                None => None::<(Seq<ClientIdV>, Seq<u8>)>,
            }),
        decreases n - i,
    {
        let (c, next) = match read_client_id(s, cur) {
            Some(t) => t,
            None => {
                return None;
            },
        };
        let ghost old_acc = acc@;
        acc.push(c);
        proof {
            assert(id_views(acc@) =~= id_views(old_acc) + seq![c@]);
            assert forall|l: Seq<ClientIdV>|
                id_views(old_acc) + (seq![c@] + l) == id_views(acc@) + l by {
                assert(id_views(old_acc) + (seq![c@] + l) =~= id_views(acc@) + l);
            }
        }
        cur = next;
        i = i + 1;
    }
    assert(id_views(acc@) + Seq::<ClientIdV>::empty() =~= id_views(acc@));
    Some((acc, cur))
}

// ---------------------------------------------------------------------------
// Framing
// ---------------------------------------------------------------------------
/// A frame: the payload prefixed with its length as a 4-byte big-endian
/// integer.
pub open spec fn frame(p: Seq<u8>) -> Seq<u8> {
    seq![
        (p.len() as int / 0x1000000) as u8,
        ((p.len() as int / 0x10000) % 0x100) as u8,
        ((p.len() as int / 0x100) % 0x100) as u8,
        (p.len() as int % 0x100) as u8,
    ] + p
}

/// Split a buffer into the first frame's payload and the rest.
pub open spec fn dec_frame(s: Seq<u8>) -> Option<(Seq<u8>, Seq<u8>)> {
    if s.len() < 4 {
        None
    } else {
        let n = s[0] as int * 0x1000000 + s[1] as int * 0x10000 + s[2] as int * 0x100 + s[3] as int;
        if n <= s.len() - 4 {
            Some((s.skip(4).take(n), s.skip(4).skip(n)))
        } else {
            None
        }
    }
}

/// Splitting off a frame yields the payload it was built from.
pub proof fn lemma_dec_frame(p: Seq<u8>, rest: Seq<u8>)
    requires
        p.len() < 0x100000000,
    ensures
        dec_frame(frame(p) + rest) == Some((p, rest)),
{
    let s = frame(p) + rest;
    lemma_recompose4(p.len() as int);
    assert(s[0] as int * 0x1000000 + s[1] as int * 0x10000 + s[2] as int * 0x100 + s[3] as int
        == p.len() as int);
    assert(s.skip(4).take(p.len() as int) =~= p);
    assert(s.skip(4).skip(p.len() as int) =~= rest);
}

/// Prefix a payload with its 4-byte big-endian length.
pub fn encode_frame(payload: &Vec<u8>) -> (r: Vec<u8>)
    requires
        payload@.len() < 0x100000000,
    ensures
        r@ == frame(payload@),
{
    let mut out: Vec<u8> = Vec::new();
    let len: u64 = payload.len() as u64;
    out.push((len / 0x1000000) as u8);
    out.push(((len / 0x10000) % 0x100) as u8);
    out.push(((len / 0x100) % 0x100) as u8);
    out.push((len % 0x100) as u8);
    append_bytes(payload, &mut out);
    assert(out@ =~= frame(payload@));
    out
}

/// Take apart a buffer holding exactly one frame.
pub fn decode_frame(s: &Vec<u8>) -> (r: Result<Vec<u8>, CodecError>)
    ensures
        r matches Ok(p) ==> dec_frame(s@) == Some((p@, Seq::<u8>::empty())),
        r is Err ==> !(exists|p: Seq<u8>|
            dec_frame(s@) == Some((p, Seq::<u8>::empty()))),
        r matches Err(e) ==> (e == CodecError::BadLengthPrefix && (s@.len() < 4 || (dec_frame(s@)
            matches Some(t) && t.1.len() > 0))) || (e == CodecError::TruncatedFrame && s@.len() >= 4
            && dec_frame(s@) is None),
{
    let total = s.len();
    if total < 4 {
        assert(dec_frame(s@) is None);
        return Err(CodecError::BadLengthPrefix);
    }
    let declared: u64 = s[0] as u64 * 0x1000000 + s[1] as u64 * 0x10000 + s[2] as u64 * 0x100
        + s[3] as u64;
    if declared > (total - 4) as u64 {
        return Err(CodecError::TruncatedFrame);
    }
    let len = declared as usize;
    if len < total - 4 {
        assert(dec_frame(s@) matches Some(t) && t.1.len() > 0);
        return Err(CodecError::BadLengthPrefix);
    }
    let p = copy_range(s, 4, len);
    assert(p@ =~= s@.skip(4).take(declared as int));
    assert(s@.skip(4).skip(declared as int) =~= Seq::<u8>::empty());
    Ok(p)
}

// ---------------------------------------------------------------------------
// Block compression and whole records
// ---------------------------------------------------------------------------
/// The compressed block that block compression produces for the given bytes,
/// with the uncompressed size prepended.  The block is a function of the
/// input alone; its exact bytes are not spelled out here.
pub uninterp spec fn lz4_block_of(data: Seq<u8>) -> Seq<u8>;

/// Longest input the block compressor accepts.
pub const MAX_BLOCK_INPUT: usize = 0x7E000000;

/// The full wire form of a record payload: its compressed block, framed.
pub open spec fn record_wire(payload: Seq<u8>) -> Seq<u8> {
    frame(lz4_block_of(payload))
}

/// The payload sizes for which the wire form is defined.
pub open spec fn record_ok(payload: Seq<u8>) -> bool {
    payload.len() <= MAX_BLOCK_INPUT as int && lz4_block_of(payload).len() < 0x100000000
}

/// Relies on `lz4::block::compress` in its default mode with the
/// uncompressed size prepended: the block depends on the input bytes alone,
/// its length is at most the documented compression bound plus the 4-byte
/// size prefix, and only an input the compressor's bound refuses fails.
#[verifier::external_body]
fn lz4_compress(data: &Vec<u8>) -> (r: Result<Vec<u8>, CodecError>)
    ensures
        r matches Ok(c) ==> c@ == lz4_block_of(data@) && c@.len() <= data@.len() + data@.len() / 255
            + 20,
        data@.len() <= MAX_BLOCK_INPUT ==> r is Ok,
{
    match lz4::block::compress(
        data.as_slice(),
        Some(lz4::block::CompressionMode::DEFAULT),
        true,
    ) {
        Ok(c) => Ok(c),
        Err(_) => Err(CodecError::CompressionFailed),
    }
}

/// Relies on `lz4::block::decompress` reading the prepended uncompressed
/// size: it inverts `lz4::block::compress`, so a block that compression
/// produced decompresses to the exact bytes compression was given.
#[verifier::external_body]
fn lz4_decompress(data: &Vec<u8>) -> (r: Result<Vec<u8>, CodecError>)
    ensures
        forall|orig: Seq<u8>|
            orig.len() <= MAX_BLOCK_INPUT && data@ == lz4_block_of(orig) ==> r is Ok
                && r->Ok_0@ == orig,
{
    match lz4::block::decompress(data.as_slice(), None) {
        Ok(d) => Ok(d),
        Err(_) => Err(CodecError::DecompressionFailed),
    }
}

/// Compress a record payload and frame it for the wire.
pub fn pack_record(payload: &Vec<u8>) -> (r: Result<Vec<u8>, CodecError>)
    ensures
        r matches Ok(b) ==> record_ok(payload@) && b@ == record_wire(payload@),
        payload@.len() <= MAX_BLOCK_INPUT ==> r is Ok,
        r matches Err(e) ==> e == CodecError::CompressionFailed,
{
    if payload.len() > MAX_BLOCK_INPUT {
        return Err(CodecError::CompressionFailed);
    }
    let compressed = match lz4_compress(payload) {
        Ok(c) => c,
        Err(e) => {
            return Err(e);
        },
    };
    assert(compressed@.len() < 0x100000000);
    let framed = encode_frame(&compressed);
    Ok(framed)
}

/// Split a frame off the wire and decompress its payload.
pub fn unpack_record(bytes: &Vec<u8>) -> (r: Result<Vec<u8>, CodecError>)
    ensures
        forall|p: Seq<u8>|
            record_ok(p) && bytes@ == record_wire(p) ==> r is Ok && r->Ok_0@ == p,
        r matches Err(e) ==> (e == CodecError::BadLengthPrefix || e == CodecError::TruncatedFrame
            || e == CodecError::DecompressionFailed),
{
    let payload = match decode_frame(bytes) {
        Ok(p) => p,
        Err(e) => {
            proof {
                assert forall|p: Seq<u8>| record_ok(p) && bytes@ == record_wire(p) implies false by {
                    lemma_dec_frame(lz4_block_of(p), Seq::<u8>::empty());
                    assert(frame(lz4_block_of(p)) + Seq::<u8>::empty() =~= frame(lz4_block_of(p)));
                }
            }
            return Err(e);
        },
    };
    let out = match lz4_decompress(&payload) {
        Ok(d) => d,
        Err(e) => {
            proof {
                assert forall|p: Seq<u8>| record_ok(p) && bytes@ == record_wire(p) implies false by {
                    lemma_dec_frame(lz4_block_of(p), Seq::<u8>::empty());
                    assert(frame(lz4_block_of(p)) + Seq::<u8>::empty() =~= frame(lz4_block_of(p)));
                }
            }
            return Err(CodecError::DecompressionFailed);
        },
    };
    proof {
        assert forall|p: Seq<u8>|
            record_ok(p) && bytes@ == record_wire(p) implies payload@ == lz4_block_of(p) by {
            lemma_dec_frame(lz4_block_of(p), Seq::<u8>::empty());
            assert(frame(lz4_block_of(p)) + Seq::<u8>::empty() =~= frame(lz4_block_of(p)));
        }
    }
    Ok(out)
}

} // verus!
