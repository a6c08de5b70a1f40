//! Primitives of the compact binary record encoding.
//!
//! Every record on the wire is built from four shapes, each introduced by a
//! one-byte header that carries a major type (3 bits) and a small count, or a
//! marker for a 1-, 2-, 4- or 8-byte big-endian count that follows:
//! unsigned integers (major 0), byte strings (major 2), text strings in
//! UTF-8 (major 3) and arrays (major 4).  Encoders always emit the shortest
//! header that fits the count; decoders accept any header width.
//!
//! The spec functions here define the encoding mathematically; the exec
//! functions implement them exactly, and the lemmas prove that decoding an
//! encoding yields the value back with the rest of the buffer untouched.
use vstd::prelude::*;

verus! {

use vstd::utf8::{encode_utf8, decode_utf8, valid_utf8, encode_utf8_valid_utf8,
    encode_utf8_decode_utf8};
use vstd::string::StrSliceExecFns;

pub const MAJOR_UINT: u8 = 0;
pub const MAJOR_BYTES: u8 = 2;
pub const MAJOR_TEXT: u8 = 3;
pub const MAJOR_ARRAY: u8 = 4;

/// Header introducing a value of the given major type with the given count,
/// in the shortest of the four widths that fits.
#[verifier::opaque]
pub open spec fn head(major: int, v: int) -> Seq<u8> {
    if v < 24 {
        seq![(major * 32 + v) as u8]
    } else if v < 0x100 {
        seq![(major * 32 + 24) as u8, v as u8]
    } else if v < 0x10000 {
        seq![(major * 32 + 25) as u8, (v / 0x100) as u8, (v % 0x100) as u8]
    } else if v < 0x100000000 {
        seq![
            (major * 32 + 26) as u8,
            (v / 0x1000000) as u8,
            ((v / 0x10000) % 0x100) as u8,
            ((v / 0x100) % 0x100) as u8,
            (v % 0x100) as u8,
        ]
    } else {
        seq![
            (major * 32 + 27) as u8,
            (v / 0x100000000000000) as u8,
            ((v / 0x1000000000000) % 0x100) as u8,
            ((v / 0x10000000000) % 0x100) as u8,
            ((v / 0x100000000) % 0x100) as u8,
            ((v / 0x1000000) % 0x100) as u8,
            ((v / 0x10000) % 0x100) as u8,
            ((v / 0x100) % 0x100) as u8,
            (v % 0x100) as u8,
        ]
    }
}

/// Decode a header from the front of `s`: the major type, the count, and the
/// bytes that follow the header.
#[verifier::opaque]
pub open spec fn dec_head(s: Seq<u8>) -> Option<(int, int, Seq<u8>)> {
    if s.len() < 1 {
        None
    } else {
        let major = s[0] as int / 32;
        let ai = s[0] as int % 32;
        if ai < 24 {
            Some((major, ai, s.skip(1)))
        } else if ai == 24 {
            if s.len() < 2 {
                None
            } else {
                Some((major, s[1] as int, s.skip(2)))
            }
        } else if ai == 25 {
            if s.len() < 3 {
                None
            } else {
                Some((major, s[1] as int * 0x100 + s[2] as int, s.skip(3)))
            }
        } else if ai == 26 {
            if s.len() < 5 {
                None
            } else {
                Some((
                    major,
                    s[1] as int * 0x1000000 + s[2] as int * 0x10000 + s[3] as int * 0x100
                        + s[4] as int,
                    s.skip(5),
                ))
            }
        } else if ai == 27 {
            if s.len() < 9 {
                None
            } else {
                Some((
                    major,
                    s[1] as int * 0x100000000000000 + s[2] as int * 0x1000000000000
                        + s[3] as int * 0x10000000000 + s[4] as int * 0x100000000
                        + s[5] as int * 0x1000000 + s[6] as int * 0x10000 + s[7] as int * 0x100
                        + s[8] as int,
                    s.skip(9),
                ))
            }
        } else {
            None
        }
    }
}

/// The initial byte of a header splits back into its major type and count
/// marker.
pub(crate) proof fn lemma_head_byte(major: int, ai: int)
    requires
        0 <= major < 8,
        0 <= ai < 32,
    ensures
        (major * 32 + ai) / 32 == major,
        (major * 32 + ai) % 32 == ai,
        0 <= major * 32 + ai < 256,
{
    assert((major * 32 + ai) / 32 == major && (major * 32 + ai) % 32 == ai) by (nonlinear_arith)
        requires
            0 <= major < 8,
            0 <= ai < 32,
    ;
}

/// A value below 2^16 is recovered from its two big-endian bytes.
pub(crate) proof fn lemma_recompose2(v: int)
    requires
        0 <= v < 0x10000,
    ensures
        (v / 0x100) * 0x100 + v % 0x100 == v,
{
    vstd::arithmetic::div_mod::lemma_fundamental_div_mod(v, 0x100);
}

/// A value below 2^32 is recovered from its four big-endian bytes.
pub(crate) proof fn lemma_recompose4(v: int)
    requires
        0 <= v < 0x100000000,
    ensures
        (v / 0x1000000) * 0x1000000 + ((v / 0x10000) % 0x100) * 0x10000 + ((v / 0x100) % 0x100)
            * 0x100 + v % 0x100 == v,
{
    vstd::arithmetic::div_mod::lemma_fundamental_div_mod(v, 0x100);
    vstd::arithmetic::div_mod::lemma_fundamental_div_mod(v / 0x100, 0x100);
    vstd::arithmetic::div_mod::lemma_fundamental_div_mod(v / 0x10000, 0x100);
    vstd::arithmetic::div_mod::lemma_div_denominator(v, 0x100, 0x100);
    vstd::arithmetic::div_mod::lemma_div_denominator(v, 0x10000, 0x100);
}

/// A value below 2^64 is recovered from its eight big-endian bytes.
pub(crate) proof fn lemma_recompose8(v: int)
    requires
        0 <= v < 0x10000000000000000,
    ensures
        (v / 0x100000000000000) * 0x100000000000000 + ((v / 0x1000000000000) % 0x100)
            * 0x1000000000000 + ((v / 0x10000000000) % 0x100) * 0x10000000000 + ((v / 0x100000000)
            % 0x100) * 0x100000000 + ((v / 0x1000000) % 0x100) * 0x1000000 + ((v / 0x10000)
            % 0x100) * 0x10000 + ((v / 0x100) % 0x100) * 0x100 + v % 0x100 == v,
{
    vstd::arithmetic::div_mod::lemma_fundamental_div_mod(v, 0x100);
    vstd::arithmetic::div_mod::lemma_fundamental_div_mod(v / 0x100, 0x100);
    vstd::arithmetic::div_mod::lemma_fundamental_div_mod(v / 0x10000, 0x100);
    vstd::arithmetic::div_mod::lemma_fundamental_div_mod(v / 0x1000000, 0x100);
    vstd::arithmetic::div_mod::lemma_fundamental_div_mod(v / 0x100000000, 0x100);
    vstd::arithmetic::div_mod::lemma_fundamental_div_mod(v / 0x10000000000, 0x100);
    vstd::arithmetic::div_mod::lemma_fundamental_div_mod(v / 0x1000000000000, 0x100);
    vstd::arithmetic::div_mod::lemma_div_denominator(v, 0x100, 0x100);
    vstd::arithmetic::div_mod::lemma_div_denominator(v, 0x10000, 0x100);
    vstd::arithmetic::div_mod::lemma_div_denominator(v, 0x1000000, 0x100);
    vstd::arithmetic::div_mod::lemma_div_denominator(v, 0x100000000, 0x100);
    vstd::arithmetic::div_mod::lemma_div_denominator(v, 0x10000000000, 0x100);
    vstd::arithmetic::div_mod::lemma_div_denominator(v, 0x1000000000000, 0x100);
}

/// Decoding a header that encoders produced yields the major type and count
/// back and leaves the rest untouched.
pub proof fn lemma_dec_head(major: int, v: int, rest: Seq<u8>)
    requires
        0 <= major < 8,
        0 <= v < 0x10000000000000000,
    ensures
        dec_head(head(major, v) + rest) == Some((major, v, rest)),
{
    reveal(head);
    reveal(dec_head);
    let s = head(major, v) + rest;
    if v < 24 {
        lemma_head_byte(major, v);
        assert(s.skip(1) =~= rest);
    } else if v < 0x100 {
        lemma_head_byte(major, 24);
        assert(s.skip(2) =~= rest);
    } else if v < 0x10000 {
        lemma_head_byte(major, 25);
        lemma_recompose2(v);
        assert(s.skip(3) =~= rest);
    } else if v < 0x100000000 {
        lemma_head_byte(major, 26);
        lemma_recompose4(v);
        assert(s.skip(5) =~= rest);
    } else {
        lemma_head_byte(major, 27);
        lemma_recompose8(v);
        assert(s.skip(9) =~= rest);
    }
}

/// A header is between one and nine bytes long.
pub proof fn lemma_head_len(major: int, v: int)
    ensures
        1 <= head(major, v).len() <= 9,
{
    reveal(head);
}

/// Encoding of an unsigned integer.
pub open spec fn enc_uint(v: int) -> Seq<u8> {
    head(MAJOR_UINT as int, v)
}

/// Decode an unsigned integer from the front of `s`.
pub open spec fn dec_uint(s: Seq<u8>) -> Option<(int, Seq<u8>)> {
    match dec_head(s) {
        Some((major, v, rest)) => if major == MAJOR_UINT as int {
            Some((v, rest))
        } else {
            None
        },
        None => None,
    }
}

pub proof fn lemma_dec_uint(v: int, rest: Seq<u8>)
    requires
        0 <= v < 0x10000000000000000,
    ensures
        dec_uint(enc_uint(v) + rest) == Some((v, rest)),
{
    lemma_dec_head(MAJOR_UINT as int, v, rest);
}

/// Encoding of a byte string.
pub open spec fn enc_bytes(b: Seq<u8>) -> Seq<u8> {
    head(MAJOR_BYTES as int, b.len() as int) + b
}

/// Decode a byte string from the front of `s`.
pub open spec fn dec_bytes(s: Seq<u8>) -> Option<(Seq<u8>, Seq<u8>)> {
    match dec_head(s) {
        Some((major, v, rest)) => if major == MAJOR_BYTES as int && v <= rest.len() {
            Some((rest.take(v), rest.skip(v)))
        } else {
            None
        },
        None => None,
    }
}

pub proof fn lemma_dec_bytes(b: Seq<u8>, rest: Seq<u8>)
    requires
        b.len() < 0x10000000000000000,
    ensures
        dec_bytes(enc_bytes(b) + rest) == Some((b, rest)),
{
    let h = head(MAJOR_BYTES as int, b.len() as int);
    assert(enc_bytes(b) + rest =~= h + (b + rest));
    lemma_dec_head(MAJOR_BYTES as int, b.len() as int, b + rest);
    assert((b + rest).take(b.len() as int) =~= b);
    assert((b + rest).skip(b.len() as int) =~= rest);
}

/// Encoding of a text string: the UTF-8 bytes of its characters.
pub open spec fn enc_text(t: Seq<char>) -> Seq<u8> {
    head(MAJOR_TEXT as int, encode_utf8(t).len() as int) + encode_utf8(t)
}

/// Decode a text string from the front of `s`.
pub open spec fn dec_text(s: Seq<u8>) -> Option<(Seq<char>, Seq<u8>)> {
    match dec_head(s) {
        Some((major, v, rest)) => if major == MAJOR_TEXT as int && v <= rest.len() && valid_utf8(
            rest.take(v),
        ) {
            Some((decode_utf8(rest.take(v)), rest.skip(v)))
        } else {
            None
        },
        None => None,
    }
}

pub proof fn lemma_dec_text(t: Seq<char>, rest: Seq<u8>)
    requires
        encode_utf8(t).len() < 0x10000000000000000,
    ensures
        dec_text(enc_text(t) + rest) == Some((t, rest)),
{
    broadcast use encode_utf8_valid_utf8, encode_utf8_decode_utf8;

    let b = encode_utf8(t);
    let h = head(MAJOR_TEXT as int, b.len() as int);
    assert(enc_text(t) + rest =~= h + (b + rest));
    lemma_dec_head(MAJOR_TEXT as int, b.len() as int, b + rest);
    assert((b + rest).take(b.len() as int) =~= b);
    assert((b + rest).skip(b.len() as int) =~= rest);
}

/// Header of an array of `n` elements; the element encodings follow.
pub open spec fn enc_arr(n: int) -> Seq<u8> {
    head(MAJOR_ARRAY as int, n)
}

/// Decode an array header from the front of `s`: the element count and the
/// bytes that follow.
pub open spec fn dec_arr(s: Seq<u8>) -> Option<(int, Seq<u8>)> {
    match dec_head(s) {
        Some((major, v, rest)) => if major == MAJOR_ARRAY as int {
            Some((v, rest))
        } else {
            None
        },
        None => None,
    }
}

pub proof fn lemma_dec_arr(n: int, rest: Seq<u8>)
    requires
        0 <= n < 0x10000000000000000,
    ensures
        dec_arr(enc_arr(n) + rest) == Some((n, rest)),
{
    lemma_dec_head(MAJOR_ARRAY as int, n, rest);
}

/// Append the header for the given major type and count, in its shortest
/// width.
pub fn write_head(major: u8, v: u64, out: &mut Vec<u8>)
    requires
        major < 8,
    ensures
        final(out)@ == old(out)@ + head(major as int, v as int),
{
    proof {
        reveal(head);
    }
    let m: u8 = major * 32;
    if v < 24 {
        out.push(m + v as u8);
    } else if v < 0x100 {
        out.push(m + 24);
        out.push(v as u8);
    } else if v < 0x10000 {
        out.push(m + 25);
        out.push((v / 0x100) as u8);
        out.push((v % 0x100) as u8);
    } else if v < 0x100000000 {
        out.push(m + 26);
        out.push((v / 0x1000000) as u8);
        out.push(((v / 0x10000) % 0x100) as u8);
        out.push(((v / 0x100) % 0x100) as u8);
        out.push((v % 0x100) as u8);
    } else {
        out.push(m + 27);
        out.push((v / 0x100000000000000) as u8);
        out.push(((v / 0x1000000000000) % 0x100) as u8);
        out.push(((v / 0x10000000000) % 0x100) as u8);
        out.push(((v / 0x100000000) % 0x100) as u8);
        out.push(((v / 0x1000000) % 0x100) as u8);
        out.push(((v / 0x10000) % 0x100) as u8);
        out.push(((v / 0x100) % 0x100) as u8);
        out.push((v % 0x100) as u8);
    }
    assert(out@ =~= old(out)@ + head(major as int, v as int));
}

/// Read a header at `pos`: the major type, the count, and the position just
/// past the header.
pub fn read_head(s: &Vec<u8>, pos: usize) -> (r: Option<(u8, u64, usize)>)
    requires
        pos <= s@.len(),
    ensures
        r matches Some(t) ==> pos < t.2 <= s@.len() && dec_head(s@.skip(pos as int)) == Some(
            (t.0 as int, t.1 as int, s@.skip(t.2 as int)),
        ),
        r is None ==> dec_head(s@.skip(pos as int)) is None,
{
    proof {
        reveal(dec_head);
    }
    let n = s.len();
    if pos >= n {
        return None;
    }
    let b = s[pos];
    let major: u8 = b / 32;
    let ai: u8 = b % 32;
    if ai < 24 {
        assert(s@.skip(pos as int).skip(1) =~= s@.skip(pos as int + 1));
        Some((major, ai as u64, pos + 1))
    } else if ai == 24 {
        if n - pos < 2 {
            return None;
        }
        assert(s@.skip(pos as int).skip(2) =~= s@.skip(pos as int + 2));
        Some((major, s[pos + 1] as u64, pos + 2))
    } else if ai == 25 {
        if n - pos < 3 {
            return None;
        }
        let v: u64 = s[pos + 1] as u64 * 0x100 + s[pos + 2] as u64;
        assert(s@.skip(pos as int).skip(3) =~= s@.skip(pos as int + 3));
        Some((major, v, pos + 3))
    } else if ai == 26 {
        if n - pos < 5 {
            return None;
        }
        let v: u64 = s[pos + 1] as u64 * 0x1000000 + s[pos + 2] as u64 * 0x10000 + s[pos
            + 3] as u64 * 0x100 + s[pos + 4] as u64;
        assert(s@.skip(pos as int).skip(5) =~= s@.skip(pos as int + 5));
        Some((major, v, pos + 5))
    } else if ai == 27 {
        if n - pos < 9 {
            return None;
        }
        let v: u64 = s[pos + 1] as u64 * 0x100000000000000 + s[pos + 2] as u64 * 0x1000000000000
            + s[pos + 3] as u64 * 0x10000000000 + s[pos + 4] as u64 * 0x100000000 + s[pos
            + 5] as u64 * 0x1000000 + s[pos + 6] as u64 * 0x10000 + s[pos + 7] as u64 * 0x100
            + s[pos + 8] as u64;
        assert(s@.skip(pos as int).skip(9) =~= s@.skip(pos as int + 9));
        Some((major, v, pos + 9))
    } else {
        None
    }
}

/// Copy `len` bytes of `s` starting at `start` into a fresh vector.
pub fn copy_range(s: &Vec<u8>, start: usize, len: usize) -> (r: Vec<u8>)
    requires
        start + len <= s@.len(),
    ensures
        r@ == s@.subrange(start as int, start as int + len as int),
{
    let n = s.len();
    let mut r: Vec<u8> = Vec::new();
    let mut i: usize = 0;
    while i < len
        invariant
            i <= len,
            start + len <= n,
            n == s@.len(),
            r@ == s@.subrange(start as int, start as int + i as int),
        decreases len - i,
    {
        r.push(s[start + i]);
        i = i + 1;
        assert(r@ =~= s@.subrange(start as int, start as int + i as int));
    }
    r
}

/// Append all of `src` to `out`.
pub fn append_bytes(src: &Vec<u8>, out: &mut Vec<u8>)
    ensures
        final(out)@ == old(out)@ + src@,
{
    let mut i: usize = 0;
    while i < src.len()
        invariant
            i <= src@.len(),
            out@ == old(out)@ + src@.take(i as int),
        decreases src@.len() - i,
    {
        out.push(src[i]);
        i = i + 1;
        assert(out@ =~= old(out)@ + src@.take(i as int));
    }
    assert(out@ =~= old(out)@ + src@);
}

/// Relies on `String::from_utf8`: it succeeds exactly on valid UTF-8 input
/// and returns the string whose UTF-8 encoding is that input.
#[verifier::external_body]
fn bytes_to_string(bytes: Vec<u8>) -> (r: Option<String>)
    ensures
        r matches Some(t) ==> encode_utf8(t@) == bytes@,
        valid_utf8(bytes@) ==> r is Some,
{
    String::from_utf8(bytes).ok()
}

/// Append the encoding of an unsigned integer.
pub fn write_uint(v: u64, out: &mut Vec<u8>)
    ensures
        final(out)@ == old(out)@ + enc_uint(v as int),
{
    write_head(MAJOR_UINT, v, out);
}

/// Read an unsigned integer at `pos`.
pub fn read_uint(s: &Vec<u8>, pos: usize) -> (r: Option<(u64, usize)>)
    requires
        pos <= s@.len(),
    ensures
        r matches Some(t) ==> pos < t.1 <= s@.len() && dec_uint(s@.skip(pos as int)) == Some(
            (t.0 as int, s@.skip(t.1 as int)),
        ),
        r is None ==> dec_uint(s@.skip(pos as int)) is None,
{
    match read_head(s, pos) {
        None => None,
        Some((major, v, end)) => {
            if major == MAJOR_UINT {
                Some((v, end))
            } else {
                None
            }
        },
    }
}

/// Append the encoding of a byte string.
pub fn write_bytes(b: &Vec<u8>, out: &mut Vec<u8>)
    ensures
        final(out)@ == old(out)@ + enc_bytes(b@),
{
    write_head(MAJOR_BYTES, b.len() as u64, out);
    append_bytes(b, out);
    assert(out@ =~= old(out)@ + enc_bytes(b@));
}

/// Read a byte string at `pos`.
pub fn read_bytes(s: &Vec<u8>, pos: usize) -> (r: Option<(Vec<u8>, usize)>)
    requires
        pos <= s@.len(),
    ensures
        r matches Some(t) ==> pos < t.1 <= s@.len() && dec_bytes(s@.skip(pos as int)) == Some(
            (t.0@, s@.skip(t.1 as int)),
        ),
        r is None ==> dec_bytes(s@.skip(pos as int)) is None,
{
    match read_head(s, pos) {
        None => None,
        Some((major, v, end)) => {
            if major != MAJOR_BYTES {
                return None;
            }
            let n = s.len();
            if v > (n - end) as u64 {
                return None;
            }
            let len = v as usize;
            let raw = copy_range(s, end, len);
            assert(raw@ =~= s@.skip(end as int).take(v as int));
            assert(s@.skip(end as int).skip(v as int) =~= s@.skip(end as int + len as int));
            Some((raw, end + len))
        },
    }
}

/// Append the encoding of a text string.
pub fn write_text(t: &String, out: &mut Vec<u8>)
    ensures
        final(out)@ == old(out)@ + enc_text(t@),
        encode_utf8(t@).len() < 0x10000000000000000,
{
    let bytes = t.as_str().as_bytes_vec();
    write_head(MAJOR_TEXT, bytes.len() as u64, out);
    append_bytes(&bytes, out);
    assert(out@ =~= old(out)@ + enc_text(t@));
}

/// Read a text string at `pos`.
pub fn read_text(s: &Vec<u8>, pos: usize) -> (r: Option<(String, usize)>)
    requires
        pos <= s@.len(),
    ensures
        r matches Some(t) ==> pos < t.1 <= s@.len() && dec_text(s@.skip(pos as int)) == Some(
            (t.0@, s@.skip(t.1 as int)),
        ),
        r is None ==> dec_text(s@.skip(pos as int)) is None,
{
    broadcast use encode_utf8_valid_utf8, encode_utf8_decode_utf8;

    match read_head(s, pos) {
        None => None,
        Some((major, v, end)) => {
            if major != MAJOR_TEXT {
                return None;
            }
            let n = s.len();
            if v > (n - end) as u64 {
                return None;
            }
            let len = v as usize;
            let raw = copy_range(s, end, len);
            assert(raw@ =~= s@.skip(end as int).take(v as int));
            match bytes_to_string(raw) {
                None => None,
                Some(t) => {
                    assert(s@.skip(end as int).skip(v as int) =~= s@.skip(
                        end as int + len as int,
                    ));
                    Some((t, end + len))
                },
            }
        },
    }
}

/// Append the header of an array of `n` elements.
pub fn write_arr(n: u64, out: &mut Vec<u8>)
    ensures
        final(out)@ == old(out)@ + enc_arr(n as int),
{
    write_head(MAJOR_ARRAY, n, out);
}

/// Read an array header at `pos`.
pub fn read_arr(s: &Vec<u8>, pos: usize) -> (r: Option<(u64, usize)>)
    requires
        pos <= s@.len(),
    ensures
        r matches Some(t) ==> pos < t.1 <= s@.len() && dec_arr(s@.skip(pos as int)) == Some(
            (t.0 as int, s@.skip(t.1 as int)),
        ),
        r is None ==> dec_arr(s@.skip(pos as int)) is None,
{
    match read_head(s, pos) {
        None => None,
        Some((major, v, end)) => {
            if major == MAJOR_ARRAY {
                Some((v, end))
            } else {
                None
            }
        },
    }
}

} // verus!
