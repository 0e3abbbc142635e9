//! Byte-level building blocks of the wire format: big-endian 16-bit
//! integers, the variable-byte remaining-length integer, and length-prefixed
//! byte and string fields, each with its encoding, its parse, and the proof
//! that the parse inverts the encoding.

use vstd::prelude::*;

use crate::types::Error;

verus! {

/// Largest value a remaining-length field can carry.
pub const REMAINING_LENGTH_MAX: u32 = 268435455;

/// A 16-bit integer as two big-endian bytes.
pub open spec fn enc_u16(n: int) -> Seq<u8> {
    seq![(n / 256) as u8, (n % 256) as u8]
}

/// The remaining-length value as a variable-byte integer: one to four
/// bytes, each carrying 7 bits, least significant group first, with the
/// high bit marking continuation.
pub open spec fn enc_varint(n: int) -> Seq<u8> {
    if n < 128 {
        seq![n as u8]
    } else if n < 16384 {
        seq![(n % 128 + 128) as u8, (n / 128) as u8]
    } else if n < 2097152 {
        seq![(n % 128 + 128) as u8, ((n / 128) % 128 + 128) as u8, (n / 16384) as u8]
    } else {
        seq![
            (n % 128 + 128) as u8,
            ((n / 128) % 128 + 128) as u8,
            ((n / 16384) % 128 + 128) as u8,
            (n / 2097152) as u8,
        ]
    }
}

/// A byte field with its big-endian 16-bit length prefix.
pub open spec fn enc_bytes_field(b: Seq<u8>) -> Seq<u8> {
    enc_u16(b.len() as int) + b
}

/// A string field: the UTF-8 bytes of the string with their length prefix.
pub open spec fn enc_str(s: Seq<char>) -> Seq<u8> {
    enc_bytes_field(vstd::utf8::encode_utf8(s))
}

/// The big-endian 16-bit integer at position `i`, if two bytes are there.
pub open spec fn parse_u16(b: Seq<u8>, i: int) -> Option<int> {
    if 0 <= i && i + 2 <= b.len() {
        Some(b[i] as int * 256 + b[i + 1] as int)
    } else {
        None
    }
}

/// Parses the fixed header of a buffer: the remaining-length value and the
/// header length (first byte included). `Ok(None)` means the buffer does not
/// yet hold the whole header; `InvalidHeader` means a fifth length byte
/// still carried a continuation bit.
pub open spec fn parse_header(b: Seq<u8>) -> Result<Option<(int, int)>, Error> {
    if b.len() < 2 {
        Ok(None)
    } else if b[1] < 128 {
        Ok(Some((b[1] as int, 2)))
    } else if b.len() < 3 {
        Ok(None)
    } else if b[2] < 128 {
        Ok(Some((b[1] as int - 128 + 128 * b[2] as int, 3)))
    } else if b.len() < 4 {
        Ok(None)
    } else if b[3] < 128 {
        Ok(Some((b[1] as int - 128 + 128 * (b[2] as int - 128) + 16384 * b[3] as int, 4)))
    } else if b.len() < 5 {
        Ok(None)
    } else if b[4] < 128 {
        Ok(Some((
            b[1] as int - 128 + 128 * (b[2] as int - 128) + 16384 * (b[3] as int - 128) + 2097152
                * b[4] as int,
            5,
        )))
    } else {
        Err(Error::InvalidHeader)
    }
}

/// Parses the length-prefixed byte field at position `i` of a packet body;
/// a prefix that runs past the body is a corrupt length.
pub open spec fn parse_bytes_field(b: Seq<u8>, i: int) -> Result<(Seq<u8>, int), Error> {
    match parse_u16(b, i) {
        None => Err(Error::InvalidLength),
        Some(l) => if i + 2 + l > b.len() {
            Err(Error::InvalidLength)
        } else {
            Ok((b.subrange(i + 2, i + 2 + l), i + 2 + l))
        },
    }
}

/// Parses the length-prefixed string field at position `i` of a packet
/// body; bytes that are not valid UTF-8 fail with `InvalidString`.
pub open spec fn parse_str_field(b: Seq<u8>, i: int) -> Result<(Seq<char>, int), Error> {
    match parse_bytes_field(b, i) {
        Err(e) => Err(e),
        Ok((raw, end)) => if vstd::utf8::valid_utf8(raw) {
            Ok((vstd::utf8::decode_utf8(raw), end))
        } else {
            Err(Error::InvalidString)
        },
    }
}

/// Parsing a fixed header finds the encoded remaining length and its width.
pub proof fn lemma_varint_roundtrip(b0: u8, n: int, rest: Seq<u8>)
    requires
        0 <= n <= REMAINING_LENGTH_MAX,
    ensures
        enc_varint(n).len() == (if n < 128 { 1int } else if n < 16384 { 2int } else if n
            < 2097152 { 3int } else { 4int }),
        parse_header(seq![b0] + enc_varint(n) + rest) == Ok::<Option<(int, int)>, Error>(
            Some((n, 1 + enc_varint(n).len() as int)),
        ),
{
    let b = seq![b0] + enc_varint(n) + rest;
    if n < 128 {
        assert(b[1] == n as u8);
    } else if n < 16384 {
        assert(b[1] == (n % 128 + 128) as u8);
        assert(b[2] == (n / 128) as u8);
        assert(n / 128 < 128) by (nonlinear_arith)
            requires 128 <= n < 16384;
        vstd::arithmetic::div_mod::lemma_fundamental_div_mod(n, 128);
    } else if n < 2097152 {
        assert(b[1] == (n % 128 + 128) as u8);
        assert(b[2] == ((n / 128) % 128 + 128) as u8);
        assert(b[3] == (n / 16384) as u8);
        assert(128 <= n / 128 && n / 16384 < 128 && n / 128 / 128 == n / 16384)
            by (nonlinear_arith)
            requires 16384 <= n < 2097152;
        vstd::arithmetic::div_mod::lemma_fundamental_div_mod(n, 128);
        vstd::arithmetic::div_mod::lemma_fundamental_div_mod(n / 128, 128);
    } else {
        assert(b[1] == (n % 128 + 128) as u8);
        assert(b[2] == ((n / 128) % 128 + 128) as u8);
        assert(b[3] == ((n / 16384) % 128 + 128) as u8);
        assert(b[4] == (n / 2097152) as u8);
        assert(128 <= n / 128 && 128 <= n / 16384 && n / 2097152 < 128 && n / 128 / 128 == n
            / 16384 && n / 16384 / 128 == n / 2097152) by (nonlinear_arith)
            requires 2097152 <= n <= 268435455;
        vstd::arithmetic::div_mod::lemma_fundamental_div_mod(n, 128);
        vstd::arithmetic::div_mod::lemma_fundamental_div_mod(n / 128, 128);
        vstd::arithmetic::div_mod::lemma_fundamental_div_mod(n / 16384, 128);
    }
}

/// Parsing a 16-bit integer at the start of its encoding gives it back.
pub proof fn lemma_u16_roundtrip(prefix: Seq<u8>, n: int, rest: Seq<u8>)
    requires
        0 <= n <= 0xFFFF,
    ensures
        parse_u16(prefix + enc_u16(n) + rest, prefix.len() as int) == Some(n),
{
    let b = prefix + enc_u16(n) + rest;
    let i = prefix.len() as int;
    assert(b[i] == (n / 256) as u8);
    assert(b[i + 1] == (n % 256) as u8);
    vstd::arithmetic::div_mod::lemma_fundamental_div_mod(n, 256);
}

/// Parsing a byte field at the start of its encoding gives it back.
pub proof fn lemma_bytes_field_roundtrip(prefix: Seq<u8>, v: Seq<u8>, rest: Seq<u8>)
    requires
        v.len() <= 0xFFFF,
    ensures
        parse_bytes_field(prefix + enc_bytes_field(v) + rest, prefix.len() as int) == Ok::<
            (Seq<u8>, int),
            Error,
        >((v, prefix.len() + 2 + v.len() as int)),
{
    let b = prefix + enc_bytes_field(v) + rest;
    let i = prefix.len() as int;
    assert(prefix + enc_bytes_field(v) + rest =~= prefix + enc_u16(v.len() as int) + (v + rest));
    lemma_u16_roundtrip(prefix, v.len() as int, v + rest);
    assert(b.subrange(i + 2, i + 2 + v.len()) =~= v);
}

/// Parsing a string field at the start of its encoding gives the string back.
pub proof fn lemma_str_field_roundtrip(prefix: Seq<u8>, s: Seq<char>, rest: Seq<u8>)
    requires
        vstd::utf8::encode_utf8(s).len() <= 0xFFFF,
    ensures
        parse_str_field(prefix + enc_str(s) + rest, prefix.len() as int) == Ok::<
            (Seq<char>, int),
            Error,
        >((s, prefix.len() + 2 + vstd::utf8::encode_utf8(s).len() as int)),
{
    lemma_bytes_field_roundtrip(prefix, vstd::utf8::encode_utf8(s), rest);
    vstd::utf8::encode_utf8_valid_utf8(s);
    vstd::utf8::encode_utf8_decode_utf8(s);
}

} // verus!
