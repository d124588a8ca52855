//! The canonical byte codec: a deterministic, non-self-describing binary
//! format with fixed-width little-endian integers, length-prefixed byte
//! strings, and UTF-8 strings. Every wire type is built from these
//! primitives; each decoder is proved to invert its encoder.

use vstd::prelude::*;
use vstd::slice::{slice_subrange, slice_to_vec};
use vstd::utf8::{
    decode_utf8, decode_utf8_encode_utf8, encode_utf8, encode_utf8_decode_utf8,
    encode_utf8_valid_utf8, valid_utf8,
};

verus! {

// ---------------------------------------------------------------------------
// Specification-level encoders
// ---------------------------------------------------------------------------

/// Little-endian encoding of a `u32`, 4 bytes.
pub open spec fn enc_u32(v: u32) -> Seq<u8> {
    seq![
        (v & 0xff) as u8,
        ((v >> 8) & 0xff) as u8,
        ((v >> 16) & 0xff) as u8,
        ((v >> 24) & 0xff) as u8,
    ]
}

/// Little-endian encoding of a `u64`, 8 bytes.
pub open spec fn enc_u64(v: u64) -> Seq<u8> {
    seq![
        (v & 0xff) as u8,
        ((v >> 8) & 0xff) as u8,
        ((v >> 16) & 0xff) as u8,
        ((v >> 24) & 0xff) as u8,
        ((v >> 32) & 0xff) as u8,
        ((v >> 40) & 0xff) as u8,
        ((v >> 48) & 0xff) as u8,
        ((v >> 56) & 0xff) as u8,
    ]
}

/// Little-endian encoding of a `u128`, 16 bytes.
pub open spec fn enc_u128(v: u128) -> Seq<u8> {
    seq![
        (v & 0xff) as u8,
        ((v >> 8) & 0xff) as u8,
        ((v >> 16) & 0xff) as u8,
        ((v >> 24) & 0xff) as u8,
        ((v >> 32) & 0xff) as u8,
        ((v >> 40) & 0xff) as u8,
        ((v >> 48) & 0xff) as u8,
        ((v >> 56) & 0xff) as u8,
        ((v >> 64) & 0xff) as u8,
        ((v >> 72) & 0xff) as u8,
        ((v >> 80) & 0xff) as u8,
        ((v >> 88) & 0xff) as u8,
        ((v >> 96) & 0xff) as u8,
        ((v >> 104) & 0xff) as u8,
        ((v >> 112) & 0xff) as u8,
        ((v >> 120) & 0xff) as u8,
    ]
}

/// A byte string: `u32` length prefix, then the raw bytes.
pub open spec fn enc_bytes(s: Seq<u8>) -> Seq<u8> {
    enc_u32(s.len() as u32) + s
}

/// Whether a byte string is short enough for its length prefix.
pub open spec fn fits_u32(n: nat) -> bool {
    n <= u32::MAX
}

/// A character string: the length-prefixed UTF-8 bytes of its characters.
pub open spec fn enc_str(s: Seq<char>) -> Seq<u8> {
    enc_bytes(encode_utf8(s))
}

/// An optional byte string: a one-byte tag, then the string if present.
pub open spec fn enc_opt_bytes(o: Option<Seq<u8>>) -> Seq<u8> {
    match o {
        Option::None => seq![0u8],
        Option::Some(s) => seq![1u8] + enc_bytes(s),
    }
}

// ---------------------------------------------------------------------------
// Specification-level decoders
//
// Each decoder takes the remaining input and yields the decoded value and
// the number of bytes consumed from the front, or nothing if the input does
// not start with a well-formed encoding.
// ---------------------------------------------------------------------------

/// The `u32` denoted by four little-endian bytes.
pub open spec fn u32_le(b0: u8, b1: u8, b2: u8, b3: u8) -> u32 {
    (b0 as u32) | ((b1 as u32) << 8) | ((b2 as u32) << 16) | ((b3 as u32) << 24)
}

/// Decodes a little-endian `u32` from the front of the input.
pub open spec fn dec_u32(s: Seq<u8>) -> Option<(u32, int)> {
    if s.len() >= 4 {
        Option::Some((u32_le(s[0], s[1], s[2], s[3]), 4int))
    } else {
        Option::None
    }
}

/// The `u64` denoted by eight little-endian bytes.
pub open spec fn u64_le(b: Seq<u8>) -> u64 {
    (b[0] as u64) | ((b[1] as u64) << 8) | ((b[2] as u64) << 16) | ((b[3] as u64) << 24)
        | ((b[4] as u64) << 32) | ((b[5] as u64) << 40) | ((b[6] as u64) << 48)
        | ((b[7] as u64) << 56)
}

/// Decodes a little-endian `u64` from the front of the input.
pub open spec fn dec_u64(s: Seq<u8>) -> Option<(u64, int)> {
    if s.len() >= 8 {
        Option::Some((u64_le(s), 8int))
    } else {
        Option::None
    }
}

/// The `u128` denoted by sixteen little-endian bytes.
pub open spec fn u128_le(b: Seq<u8>) -> u128 {
    (b[0] as u128) | ((b[1] as u128) << 8) | ((b[2] as u128) << 16) | ((b[3] as u128) << 24)
        | ((b[4] as u128) << 32) | ((b[5] as u128) << 40) | ((b[6] as u128) << 48)
        | ((b[7] as u128) << 56) | ((b[8] as u128) << 64) | ((b[9] as u128) << 72)
        | ((b[10] as u128) << 80) | ((b[11] as u128) << 88) | ((b[12] as u128) << 96)
        | ((b[13] as u128) << 104) | ((b[14] as u128) << 112) | ((b[15] as u128) << 120)
}

/// Decodes a little-endian `u128` from the front of the input.
pub open spec fn dec_u128(s: Seq<u8>) -> Option<(u128, int)> {
    if s.len() >= 16 {
        Option::Some((u128_le(s), 16int))
    } else {
        Option::None
    }
}

/// Decodes a length-prefixed byte string from the front of the input.
pub open spec fn dec_bytes(s: Seq<u8>) -> Option<(Seq<u8>, int)> {
    match dec_u32(s) {
        Option::Some((n, _)) => {
            if s.len() >= 4 + n {
                Option::Some((s.subrange(4, 4 + n), 4 + n as int))
            } else {
                Option::None
            }
        },
        Option::None => Option::None,
    }
}

/// Decodes a length-prefixed UTF-8 string from the front of the input.
pub open spec fn dec_str(s: Seq<u8>) -> Option<(Seq<char>, int)> {
    match dec_bytes(s) {
        Option::Some((b, used)) => {
            if valid_utf8(b) {
                Option::Some((decode_utf8(b), used))
            } else {
                Option::None
            }
        },
        Option::None => Option::None,
    }
}

/// Decodes an optional byte string from the front of the input.
pub open spec fn dec_opt_bytes(s: Seq<u8>) -> Option<(Option<Seq<u8>>, int)> {
    if s.len() >= 1 {
        if s[0] == 0u8 {
            Option::Some((Option::None, 1int))
        } else if s[0] == 1u8 {
            match dec_bytes(s.skip(1)) {
                Option::Some((b, used)) => Option::Some((Option::Some(b), 1 + used)),
                Option::None => Option::None,
            }
        } else {
            Option::None
        }
    } else {
        Option::None
    }
}

// ---------------------------------------------------------------------------
// Round-trip lemmas: each decoder inverts its encoder under any suffix.
// ---------------------------------------------------------------------------

/// Decoding inverts the `u32` encoder, whatever follows it.
#[verifier::rlimit(100)]
#[verifier::spinoff_prover]
pub proof fn lemma_dec_enc_u32(v: u32, rest: Seq<u8>)
    ensures
        dec_u32(enc_u32(v) + rest) == Option::Some((v, 4int)),
{
    let s = enc_u32(v) + rest;
    assert(s[0] == (v & 0xff) as u8);
    assert(s[1] == ((v >> 8) & 0xff) as u8);
    assert(s[2] == ((v >> 16) & 0xff) as u8);
    assert(s[3] == ((v >> 24) & 0xff) as u8);
    assert(u32_le(
        (v & 0xff) as u8,
        ((v >> 8) & 0xff) as u8,
        ((v >> 16) & 0xff) as u8,
        ((v >> 24) & 0xff) as u8,
    ) == v) by (bit_vector);
}

/// Decoding inverts the `u64` encoder, whatever follows it.
#[verifier::rlimit(100)]
#[verifier::spinoff_prover]
pub proof fn lemma_dec_enc_u64(v: u64, rest: Seq<u8>)
    ensures
        dec_u64(enc_u64(v) + rest) == Option::Some((v, 8int)),
{
    let s = enc_u64(v) + rest;
    assert(s.subrange(0, 8) =~= enc_u64(v));
    assert(((v & 0xff) as u8 as u64) | ((((v >> 8) & 0xff) as u8 as u64) << 8)
        | ((((v >> 16) & 0xff) as u8 as u64) << 16) | ((((v >> 24) & 0xff) as u8 as u64) << 24)
        | ((((v >> 32) & 0xff) as u8 as u64) << 32) | ((((v >> 40) & 0xff) as u8 as u64) << 40)
        | ((((v >> 48) & 0xff) as u8 as u64) << 48) | ((((v >> 56) & 0xff) as u8 as u64) << 56)
        == v) by (bit_vector);
    assert(u64_le(s) == v);
}

/// Decoding inverts the `u128` encoder, whatever follows it.
#[verifier::rlimit(100)]
#[verifier::spinoff_prover]
pub proof fn lemma_dec_enc_u128(v: u128, rest: Seq<u8>)
    ensures
        dec_u128(enc_u128(v) + rest) == Option::Some((v, 16int)),
{
    let s = enc_u128(v) + rest;
    assert(s.subrange(0, 16) =~= enc_u128(v));
    assert(((v & 0xff) as u8 as u128) | ((((v >> 8) & 0xff) as u8 as u128) << 8)
        | ((((v >> 16) & 0xff) as u8 as u128) << 16) | ((((v >> 24) & 0xff) as u8 as u128) << 24)
        | ((((v >> 32) & 0xff) as u8 as u128) << 32) | ((((v >> 40) & 0xff) as u8 as u128) << 40)
        | ((((v >> 48) & 0xff) as u8 as u128) << 48) | ((((v >> 56) & 0xff) as u8 as u128) << 56)
        | ((((v >> 64) & 0xff) as u8 as u128) << 64) | ((((v >> 72) & 0xff) as u8 as u128) << 72)
        | ((((v >> 80) & 0xff) as u8 as u128) << 80) | ((((v >> 88) & 0xff) as u8 as u128) << 88)
        | ((((v >> 96) & 0xff) as u8 as u128) << 96)
        | ((((v >> 104) & 0xff) as u8 as u128) << 104)
        | ((((v >> 112) & 0xff) as u8 as u128) << 112)
        | ((((v >> 120) & 0xff) as u8 as u128) << 120) == v) by (bit_vector);
    assert(u128_le(s) == v);
}

/// Decoding inverts the byte-string encoder, whatever follows it.
#[verifier::rlimit(100)]
#[verifier::spinoff_prover]
pub proof fn lemma_dec_enc_bytes(b: Seq<u8>, rest: Seq<u8>)
    requires
        fits_u32(b.len()),
    ensures
        dec_bytes(enc_bytes(b) + rest) == Option::Some((b, 4 + b.len() as int)),
{
    let s = enc_bytes(b) + rest;
    assert(s =~= enc_u32(b.len() as u32) + (b + rest));
    lemma_dec_enc_u32(b.len() as u32, b + rest);
    assert(s.subrange(4, 4 + b.len() as int) =~= b);
}

/// Decoding inverts the string encoder, whatever follows it.
#[verifier::rlimit(100)]
#[verifier::spinoff_prover]
pub proof fn lemma_dec_enc_str(t: Seq<char>, rest: Seq<u8>)
    requires
        fits_u32(encode_utf8(t).len()),
    ensures
        dec_str(enc_str(t) + rest) == Option::Some((t, 4 + encode_utf8(t).len() as int)),
{
    let b = encode_utf8(t);
    lemma_dec_enc_bytes(b, rest);
    encode_utf8_valid_utf8(t);
    encode_utf8_decode_utf8(t);
}

/// Decoding inverts the optional byte-string encoder, whatever follows it.
#[verifier::rlimit(100)]
#[verifier::spinoff_prover]
pub proof fn lemma_dec_enc_opt_bytes(o: Option<Seq<u8>>, rest: Seq<u8>)
    requires
        o matches Option::Some(b) ==> fits_u32(b.len()),
    ensures
        dec_opt_bytes(enc_opt_bytes(o) + rest) == Option::Some(
            (o, enc_opt_bytes(o).len() as int),
        ),
{
    let s = enc_opt_bytes(o) + rest;
    match o {
        Option::None => {
            assert(s[0] == 0u8);
        },
        Option::Some(b) => {
            assert(s[0] == 1u8);
            assert(s.skip(1) =~= enc_bytes(b) + rest);
            lemma_dec_enc_bytes(b, rest);
        },
    }
}

// ---------------------------------------------------------------------------
// Executable encoders: each appends the canonical bytes to an output vector.
// ---------------------------------------------------------------------------

/// Appends the little-endian bytes of a `u32`.
pub fn write_u32(out: &mut Vec<u8>, v: u32)
    ensures
        final(out)@ == old(out)@ + enc_u32(v),
{
    out.push((v & 0xff) as u8);
    out.push(((v >> 8) & 0xff) as u8);
    out.push(((v >> 16) & 0xff) as u8);
    out.push(((v >> 24) & 0xff) as u8);
    proof {
        assert(out@ =~= old(out)@ + enc_u32(v));
    }
}

/// Appends the little-endian bytes of a `u64`.
pub fn write_u64(out: &mut Vec<u8>, v: u64)
    ensures
        final(out)@ == old(out)@ + enc_u64(v),
{
    out.push((v & 0xff) as u8);
    out.push(((v >> 8) & 0xff) as u8);
    out.push(((v >> 16) & 0xff) as u8);
    out.push(((v >> 24) & 0xff) as u8);
    out.push(((v >> 32) & 0xff) as u8);
    out.push(((v >> 40) & 0xff) as u8);
    out.push(((v >> 48) & 0xff) as u8);
    out.push(((v >> 56) & 0xff) as u8);
    proof {
        assert(out@ =~= old(out)@ + enc_u64(v));
    }
}

/// Appends the little-endian bytes of a `u128`.
pub fn write_u128(out: &mut Vec<u8>, v: u128)
    ensures
        final(out)@ == old(out)@ + enc_u128(v),
{
    out.push((v & 0xff) as u8);
    out.push(((v >> 8) & 0xff) as u8);
    out.push(((v >> 16) & 0xff) as u8);
    out.push(((v >> 24) & 0xff) as u8);
    out.push(((v >> 32) & 0xff) as u8);
    out.push(((v >> 40) & 0xff) as u8);
    out.push(((v >> 48) & 0xff) as u8);
    out.push(((v >> 56) & 0xff) as u8);
    out.push(((v >> 64) & 0xff) as u8);
    out.push(((v >> 72) & 0xff) as u8);
    out.push(((v >> 80) & 0xff) as u8);
    out.push(((v >> 88) & 0xff) as u8);
    out.push(((v >> 96) & 0xff) as u8);
    out.push(((v >> 104) & 0xff) as u8);
    out.push(((v >> 112) & 0xff) as u8);
    out.push(((v >> 120) & 0xff) as u8);
    proof {
        assert(out@ =~= old(out)@ + enc_u128(v));
    }
}

/// Appends a length-prefixed byte string.
pub fn write_bytes(out: &mut Vec<u8>, b: &[u8])
    requires
        fits_u32(b@.len()),
    ensures
        final(out)@ == old(out)@ + enc_bytes(b@),
{
    write_u32(out, b.len() as u32);
    out.extend_from_slice(b);
    proof {
        assert(out@ =~= old(out)@ + enc_bytes(b@));
    }
}

/// Appends a length-prefixed UTF-8 string.
pub fn write_str(out: &mut Vec<u8>, s: &str)
    requires
        fits_u32(encode_utf8(s@).len()),
    ensures
        final(out)@ == old(out)@ + enc_str(s@),
{
    write_bytes(out, s.as_bytes());
}

/// Appends an optional byte string: a tag byte, then the string if present.
pub fn write_opt_bytes(out: &mut Vec<u8>, o: &Option<Vec<u8>>)
    requires
        o matches Option::Some(b) ==> fits_u32(b@.len()),
    ensures
        final(out)@ == old(out)@ + enc_opt_bytes(match o {
            Option::Some(b) => Option::Some(b@),
            Option::None => Option::None,
        }),
{
    match o {
        Option::None => {
            out.push(0u8);
            proof {
                assert(out@ =~= old(out)@ + enc_opt_bytes(Option::None));
            }
        },
        Option::Some(b) => {
            out.push(1u8);
            write_bytes(out, b.as_slice());
            proof {
                assert(out@ =~= old(out)@ + enc_opt_bytes(Option::Some(b@)));
            }
        },
    }
}

// ---------------------------------------------------------------------------
// Executable decoders: each reads from a position in the input and returns
// the value with the next position, exactly as the specification decoder
// says, or nothing where the specification decoder says nothing.
// ---------------------------------------------------------------------------

/// Reads a little-endian `u32` at `pos`.
pub fn read_u32(input: &[u8], pos: usize) -> (r: Option<(u32, usize)>)
    requires
        pos <= input@.len(),
    ensures
        match r {
            Option::Some((x, newpos)) => {
                &&& dec_u32(input@.skip(pos as int)) == Option::Some((x, newpos - pos))
                &&& pos <= newpos <= input@.len()
            },
            Option::None => dec_u32(input@.skip(pos as int)) is None,
        },
{
    if input.len() - pos < 4 {
        return Option::None;
    }
    let b0 = input[pos];
    let b1 = input[pos + 1];
    let b2 = input[pos + 2];
    let b3 = input[pos + 3];
    let x = (b0 as u32) | ((b1 as u32) << 8) | ((b2 as u32) << 16) | ((b3 as u32) << 24);
    proof {
        let s = input@.skip(pos as int);
        assert(s[0] == b0 && s[1] == b1 && s[2] == b2 && s[3] == b3);
    }
    Option::Some((x, pos + 4))
}

/// Reads a little-endian `u64` at `pos`.
pub fn read_u64(input: &[u8], pos: usize) -> (r: Option<(u64, usize)>)
    requires
        pos <= input@.len(),
    ensures
        match r {
            Option::Some((x, newpos)) => {
                &&& dec_u64(input@.skip(pos as int)) == Option::Some((x, newpos - pos))
                &&& pos <= newpos <= input@.len()
            },
            Option::None => dec_u64(input@.skip(pos as int)) is None,
        },
{
    if input.len() - pos < 8 {
        return Option::None;
    }
    let x = (input[pos] as u64) | ((input[pos + 1] as u64) << 8) | ((input[pos + 2] as u64) << 16)
        | ((input[pos + 3] as u64) << 24) | ((input[pos + 4] as u64) << 32)
        | ((input[pos + 5] as u64) << 40) | ((input[pos + 6] as u64) << 48)
        | ((input[pos + 7] as u64) << 56);
    proof {
        let s = input@.skip(pos as int);
        assert(forall|j: int| 0 <= j < 8 ==> s[j] == input@[pos + j]);
    }
    Option::Some((x, pos + 8))
}

/// Reads a little-endian `u128` at `pos`.
pub fn read_u128(input: &[u8], pos: usize) -> (r: Option<(u128, usize)>)
    requires
        pos <= input@.len(),
    ensures
        match r {
            Option::Some((x, newpos)) => {
                &&& dec_u128(input@.skip(pos as int)) == Option::Some((x, newpos - pos))
                &&& pos <= newpos <= input@.len()
            },
            Option::None => dec_u128(input@.skip(pos as int)) is None,
        },
{
    if input.len() - pos < 16 {
        return Option::None;
    }
    let x = (input[pos] as u128) | ((input[pos + 1] as u128) << 8)
        | ((input[pos + 2] as u128) << 16) | ((input[pos + 3] as u128) << 24)
        | ((input[pos + 4] as u128) << 32) | ((input[pos + 5] as u128) << 40)
        | ((input[pos + 6] as u128) << 48) | ((input[pos + 7] as u128) << 56)
        | ((input[pos + 8] as u128) << 64) | ((input[pos + 9] as u128) << 72)
        | ((input[pos + 10] as u128) << 80) | ((input[pos + 11] as u128) << 88)
        | ((input[pos + 12] as u128) << 96) | ((input[pos + 13] as u128) << 104)
        | ((input[pos + 14] as u128) << 112) | ((input[pos + 15] as u128) << 120);
    proof {
        let s = input@.skip(pos as int);
        assert(forall|j: int| 0 <= j < 16 ==> s[j] == input@[pos + j]);
    }
    Option::Some((x, pos + 16))
}

/// Reads a length-prefixed byte string at `pos`.
pub fn read_bytes(input: &[u8], pos: usize) -> (r: Option<(Vec<u8>, usize)>)
    requires
        pos <= input@.len(),
    ensures
        match r {
            Option::Some((b, newpos)) => {
                &&& dec_bytes(input@.skip(pos as int)) == Option::Some((b@, newpos - pos))
                &&& pos <= newpos <= input@.len()
            },
            Option::None => dec_bytes(input@.skip(pos as int)) is None,
        },
{
    let (n, p) = match read_u32(input, pos) {
        Option::Some(x) => x,
        Option::None => {
            return Option::None;
        },
    };
    if (input.len() - p) < (n as usize) {
        proof {
            let s = input@.skip(pos as int);
            assert(s.len() < 4 + n);
        }
        return Option::None;
    }
    let b = slice_to_vec(slice_subrange(input, p, p + n as usize));
    proof {
        let s = input@.skip(pos as int);
        assert(b@ =~= s.subrange(4, 4 + n as int));
    }
    Option::Some((b, p + n as usize))
}

/// Relies on String::from_utf8: succeeds exactly on valid UTF-8 input and
/// returns the character string whose UTF-8 encoding is that input.
#[verifier::external_body]
pub fn bytes_to_string(v: &[u8]) -> (r: Option<String>)
    ensures
        match r {
            Option::Some(s) => valid_utf8(v@) && encode_utf8(s@) == v@ && s@ == decode_utf8(v@),
            Option::None => !valid_utf8(v@),
        },
{
    match String::from_utf8(v.to_vec()) {
        Ok(s) => Option::Some(s),
        Err(_) => Option::None,
    }
}

/// Reads a length-prefixed UTF-8 string at `pos`.
pub fn read_str(input: &[u8], pos: usize) -> (r: Option<(String, usize)>)
    requires
        pos <= input@.len(),
    ensures
        match r {
            Option::Some((s, newpos)) => {
                &&& dec_str(input@.skip(pos as int)) == Option::Some((s@, newpos - pos))
                &&& pos <= newpos <= input@.len()
            },
            Option::None => dec_str(input@.skip(pos as int)) is None,
        },
{
    let (b, p) = match read_bytes(input, pos) {
        Option::Some(x) => x,
        Option::None => {
            return Option::None;
        },
    };
    match bytes_to_string(b.as_slice()) {
        Option::Some(s) => Option::Some((s, p)),
        Option::None => Option::None,
    }
}

/// Reads an optional byte string at `pos`.
pub fn read_opt_bytes(input: &[u8], pos: usize) -> (r: Option<(Option<Vec<u8>>, usize)>)
    requires
        pos <= input@.len(),
    ensures
        match r {
            Option::Some((o, newpos)) => {
                &&& dec_opt_bytes(input@.skip(pos as int)) == Option::Some(
                    (
                        match o {
                            Option::Some(b) => Option::Some(b@),
                            Option::None => Option::None,
                        },
                        newpos - pos,
                    ),
                )
                &&& pos <= newpos <= input@.len()
            },
            Option::None => dec_opt_bytes(input@.skip(pos as int)) is None,
        },
{
    if input.len() - pos < 1 {
        return Option::None;
    }
    let tag = input[pos];
    if tag == 0u8 {
        Option::Some((Option::None, pos + 1))
    } else if tag == 1u8 {
        match read_bytes(input, pos + 1) {
            Option::Some((b, p)) => {
                proof {
                    let s = input@.skip(pos as int);
                    assert(s.skip(1) =~= input@.skip(pos + 1));
                }
                Option::Some((Option::Some(b), p))
            },
            Option::None => {
                proof {
                    let s = input@.skip(pos as int);
                    assert(s.skip(1) =~= input@.skip(pos + 1));
                }
                Option::None
            },
        }
    } else {
        Option::None
    }
}

/// Decodes a raw 32-byte digest from the front of the input.
pub open spec fn dec_digest(s: Seq<u8>) -> Option<(Seq<u8>, int)> {
    if s.len() >= 32 {
        Option::Some((s.take(32), 32int))
    } else {
        Option::None
    }
}

/// A raw digest encodes as itself; decoding takes its 32 bytes back.
pub proof fn lemma_dec_enc_digest(d: Seq<u8>, rest: Seq<u8>)
    requires
        d.len() == 32,
    ensures
        dec_digest(d + rest) == Option::Some((d, 32int)),
{
    assert((d + rest).take(32) =~= d);
}

/// Appends the 32 raw bytes of a digest.
pub fn write_digest(out: &mut Vec<u8>, d: &Vec<u8>)
    requires
        d@.len() == 32,
    ensures
        final(out)@ == old(out)@ + d@,
{
    out.extend_from_slice(d.as_slice());
}

/// Reads a raw 32-byte digest at `pos`.
pub fn read_digest(input: &[u8], pos: usize) -> (r: Option<(Vec<u8>, usize)>)
    requires
        pos <= input@.len(),
    ensures
        match r {
            Option::Some((d, newpos)) => {
                &&& dec_digest(input@.skip(pos as int)) == Option::Some((d@, newpos - pos))
                &&& pos <= newpos <= input@.len()
                &&& d@.len() == 32
            },
            Option::None => dec_digest(input@.skip(pos as int)) is None,
        },
{
    if input.len() - pos < 32 {
        return Option::None;
    }
    let d = slice_to_vec(slice_subrange(input, pos, pos + 32));
    proof {
        assert(d@ =~= input@.skip(pos as int).take(32));
    }
    Option::Some((d, pos + 32))
}

/// A decoded string is short enough to encode again: its UTF-8 bytes
/// are the length-prefixed bytes it was decoded from.
pub proof fn lemma_dec_str_fits(s: Seq<u8>)
    ensures
        dec_str(s) matches Option::Some(p) ==> fits_u32(encode_utf8(p.0).len()),
{
    if dec_str(s) matches Option::Some((t, _)) {
        let b = dec_bytes(s).unwrap().0;
        decode_utf8_encode_utf8(b);
    }
}

/// Encoding characters to UTF-8 distributes over concatenation.
pub proof fn lemma_encode_utf8_concat(a: Seq<char>, b: Seq<char>)
    ensures
        encode_utf8(a + b) == encode_utf8(a) + encode_utf8(b),
    decreases a.len(),
{
    if a.len() == 0 {
        assert(a + b =~= b);
        assert(encode_utf8(a) =~= Seq::<u8>::empty());
        assert(encode_utf8(a) + encode_utf8(b) =~= encode_utf8(b));
    } else {
        lemma_encode_utf8_concat(a.drop_first(), b);
        assert((a + b).drop_first() =~= a.drop_first() + b);
        assert(encode_utf8(a + b) =~= encode_utf8(a) + encode_utf8(b));
    }
}

} // verus!
