//! Little-endian integers and the eight-byte header that precedes every rule body.

use crate::error::RuleSetError;
use vstd::bytes::{
    lemma_auto_spec_u32_to_from_le_bytes, lemma_auto_spec_u64_to_from_le_bytes,
    spec_u32_from_le_bytes, spec_u32_to_le_bytes, spec_u64_from_le_bytes, spec_u64_to_le_bytes,
    u32_from_le_bytes, u64_from_le_bytes,
};
use vstd::prelude::*;
use vstd::slice::{slice_subrange, slice_to_vec};
use vstd::utf8::{decode_utf8, encode_utf8, valid_utf8};

verus! {

/// Width in bytes of an encoded `u64`.
pub const U64_BYTES: usize = 8;

/// Width in bytes of the header: a type tag and a body length, four bytes each.
pub const HEADER_SECTION: usize = 8;

/// The four bytes of `x`, least significant first.
pub open spec fn u32_le(x: u32) -> Seq<u8> {
    spec_u32_to_le_bytes(x)
}

/// The eight bytes of `x`, least significant first.
pub open spec fn u64_le(x: u64) -> Seq<u8> {
    spec_u64_to_le_bytes(x)
}

/// The number whose little-endian bytes are the four of `b` from `at` on.
pub open spec fn u32_at(b: Seq<u8>, at: int) -> u32
    recommends
        0 <= at,
        at + 4 <= b.len(),
{
    spec_u32_from_le_bytes(b.subrange(at, at + 4))
}

/// The number whose little-endian bytes are the eight of `b` from `at` on.
pub open spec fn u64_at(b: Seq<u8>, at: int) -> u64
    recommends
        0 <= at,
        at + 8 <= b.len(),
{
    spec_u64_from_le_bytes(b.subrange(at, at + 8))
}

/// The header of a node: its type tag, then the length of its body.
pub open spec fn header_bytes(type_tag: u32, body_length: u32) -> Seq<u8> {
    u32_le(type_tag) + u32_le(body_length)
}

/// A `u32` that stands in a buffer is read back from it, whatever surrounds it.
pub proof fn lemma_u32_at_encoded(before: Seq<u8>, x: u32, after: Seq<u8>)
    ensures
        u32_le(x).len() == 4,
        u32_at(before + u32_le(x) + after, before.len() as int) == x,
{
    lemma_auto_spec_u32_to_from_le_bytes();
    let b = before + u32_le(x) + after;
    assert(b.subrange(before.len() as int, before.len() as int + 4) =~= u32_le(x));
}

/// A `u64` that stands in a buffer is read back from it, whatever surrounds it.
pub proof fn lemma_u64_at_encoded(before: Seq<u8>, x: u64, after: Seq<u8>)
    ensures
        u64_le(x).len() == 8,
        u64_at(before + u64_le(x) + after, before.len() as int) == x,
{
    lemma_auto_spec_u64_to_from_le_bytes();
    let b = before + u64_le(x) + after;
    assert(b.subrange(before.len() as int, before.len() as int + 8) =~= u64_le(x));
}

/// Four bytes of a buffer are the encoding of the number read from them.
pub proof fn lemma_u32_le_of_read(b: Seq<u8>, at: int)
    requires
        0 <= at,
        at + 4 <= b.len(),
    ensures
        u32_le(u32_at(b, at)) == b.subrange(at, at + 4),
{
    lemma_auto_spec_u32_to_from_le_bytes();
}

/// Eight bytes of a buffer are the encoding of the number read from them.
pub proof fn lemma_u64_le_of_read(b: Seq<u8>, at: int)
    requires
        0 <= at,
        at + 8 <= b.len(),
    ensures
        u64_le(u64_at(b, at)) == b.subrange(at, at + 8),
{
    lemma_auto_spec_u64_to_from_le_bytes();
}

/// `std::io::Error`, the error that the integer encoder reports. Nothing is
/// known of its contents.
#[verifier::external_type_specification]
#[verifier::external_body]
pub struct ExIoError(std::io::Error);

/// `borsh::BorshSerialize::serialize` of a `u32` into a `Vec<u8>`: it takes
/// the four little-endian bytes of the value and hands them to the buffer's
/// `write_all`, which for a `Vec<u8>` appends them and reports success.
#[verifier::external_body]
fn borsh_u32(value: u32, data: &mut Vec<u8>) -> (written: Result<(), std::io::Error>)
    ensures
        written is Ok,
        final(data)@ == old(data)@ + u32_le(value),
{
    borsh::BorshSerialize::serialize(&value, data)
}

/// `borsh::BorshSerialize::serialize` of a `u64` into a `Vec<u8>`: it takes
/// the eight little-endian bytes of the value and hands them to the buffer's
/// `write_all`, which for a `Vec<u8>` appends them and reports success.
#[verifier::external_body]
fn borsh_u64(value: u64, data: &mut Vec<u8>) -> (written: Result<(), std::io::Error>)
    ensures
        written is Ok,
        final(data)@ == old(data)@ + u64_le(value),
{
    borsh::BorshSerialize::serialize(&value, data)
}

/// What a write is worth to the engine: done, or a serialization error.
pub fn written_or_error(written: Result<(), std::io::Error>) -> (r: Result<(), RuleSetError>)
    ensures
        r is Ok <==> written is Ok,
        r is Err ==> r == Err::<(), RuleSetError>(RuleSetError::BorshSerializationError),
{
    match written {
        Ok(_) => Ok(()),
        Err(_) => Err(RuleSetError::BorshSerializationError),
    }
}

/// Appends the little-endian bytes of `value` to `data`.
pub fn put_u32(value: u32, data: &mut Vec<u8>) -> (r: Result<(), RuleSetError>)
    ensures
        r is Ok,
        final(data)@ == old(data)@ + u32_le(value),
{
    written_or_error(borsh_u32(value, data))
}

/// Appends the little-endian bytes of `value` to `data`.
pub fn put_u64(value: u64, data: &mut Vec<u8>) -> (r: Result<(), RuleSetError>)
    ensures
        r is Ok,
        final(data)@ == old(data)@ + u64_le(value),
{
    written_or_error(borsh_u64(value, data))
}

/// Reads the `u32` that starts at `at`.
pub(crate) fn read_u32(bytes: &[u8], at: usize) -> (x: u32)
    requires
        at + 4 <= bytes@.len(),
    ensures
        x == u32_at(bytes@, at as int),
{
    assert(bytes.len() == bytes@.len());
    u32_from_le_bytes(slice_subrange(bytes, at, at + 4))
}

/// Reads the `u64` that starts at `at`.
pub(crate) fn read_u64(bytes: &[u8], at: usize) -> (x: u64)
    requires
        at + 8 <= bytes@.len(),
    ensures
        x == u64_at(bytes@, at as int),
{
    assert(bytes.len() == bytes@.len());
    u64_from_le_bytes(slice_subrange(bytes, at, at + U64_BYTES))
}

/// Writes the header of a node: its type tag and the length of its body.
pub fn encode_header(type_tag: u32, body_length: u32) -> (r: Result<Vec<u8>, RuleSetError>)
    ensures
        r is Ok,
        r matches Ok(bytes) ==> bytes@ == header_bytes(type_tag, body_length) && bytes@.len() == 8,
{
    let mut data: Vec<u8> = Vec::with_capacity(HEADER_SECTION);
    match put_u32(type_tag, &mut data) {
        Ok(_) => {},
        Err(e) => {
            return Err(e);
        },
    }
    match put_u32(body_length, &mut data) {
        Ok(_) => {},
        Err(e) => {
            return Err(e);
        },
    }
    proof {
        lemma_auto_spec_u32_to_from_le_bytes();
        assert(data@ =~= header_bytes(type_tag, body_length));
    }
    Ok(data)
}

/// Reads the header that a buffer starts with: the type tag and the body length.
pub fn decode_header(bytes: &[u8]) -> (r: Result<(u32, u32), RuleSetError>)
    ensures
        bytes@.len() < 8 <==> r is Err,
        r matches Err(e) ==> e == RuleSetError::MalformedHeader,
        r matches Ok((type_tag, body_length)) ==> type_tag == u32_at(bytes@, 0) && body_length
            == u32_at(bytes@, 4),
{
    if bytes.len() < HEADER_SECTION {
        return Err(RuleSetError::MalformedHeader);
    }
    Ok((read_u32(bytes, 0), read_u32(bytes, 4)))
}

/// What writing gives: the bytes, exactly where writing is not refused;
/// otherwise the reason for which it is refused.
pub open spec fn written(
    r: Result<Vec<u8>, RuleSetError>,
    refused: Option<RuleSetError>,
    bytes: Seq<u8>,
) -> bool {
    &&& r is Ok <==> refused is None
    &&& r matches Ok(data) ==> data@ == bytes
    &&& r matches Err(e) ==> refused == Some(e)
}

/// A node on the wire, given its body: the header, then the body.
pub open spec fn node_bytes(type_tag: u32, body: Seq<u8>) -> Seq<u8> {
    header_bytes(type_tag, body.len() as u32) + body
}

/// Why a node with the body cannot be written, if it cannot: the body is
/// longer than a header can announce.
pub open spec fn node_refused(body: Seq<u8>) -> Option<RuleSetError> {
    if body.len() > u32::MAX {
        Some(RuleSetError::NumericalOverflow)
    } else {
        None
    }
}

/// Writes a node: its header, then its body.
pub(crate) fn write_node(type_tag: u32, body: &[u8]) -> (r: Result<Vec<u8>, RuleSetError>)
    ensures
        written(r, node_refused(body@), node_bytes(type_tag, body@)),
{
    let length = body.len();
    if length > 0xffff_ffff {
        return Err(RuleSetError::NumericalOverflow);
    }
    let mut data: Vec<u8> = match encode_header(type_tag, length as u32) {
        Ok(data) => data,
        Err(e) => {
            return Err(e);
        },
    };
    let ghost head = data@;
    data.extend_from_slice(body);
    proof {
        assert(data@ =~= head + body@);
    }
    Ok(data)
}

/// The text that the bytes spell in UTF-8.
pub open spec fn parse_text(bytes: Seq<u8>) -> Result<Seq<char>, RuleSetError> {
    if valid_utf8(bytes) {
        Ok(decode_utf8(bytes))
    } else {
        Err(RuleSetError::InvalidUtf8)
    }
}

/// `std::string::FromUtf8Error`, the error of `String::from_utf8`. Nothing
/// is known of its contents.
#[verifier::external_type_specification]
#[verifier::external_body]
pub struct ExFromUtf8Error(std::string::FromUtf8Error);

/// `String::from_utf8`: succeeds exactly where the bytes are valid UTF-8,
/// and the string is then made of those bytes.
#[verifier::external_body]
fn string_from_utf8(bytes: Vec<u8>) -> (text: Result<String, std::string::FromUtf8Error>)
    ensures
        text is Ok <==> valid_utf8(bytes@),
        text matches Ok(s) ==> encode_utf8(s@) == bytes@,
{
    String::from_utf8(bytes)
}

/// Reads the text that the bytes from `at` on spell in UTF-8.
pub(crate) fn read_text(bytes: &[u8], at: usize) -> (r: Result<String, RuleSetError>)
    requires
        at <= bytes@.len(),
    ensures
        match r {
            Ok(text) => parse_text(bytes@.subrange(at as int, bytes@.len() as int)) == Ok::<
                Seq<char>,
                RuleSetError,
            >(text@),
            Err(e) => parse_text(bytes@.subrange(at as int, bytes@.len() as int)) == Err::<
                Seq<char>,
                RuleSetError,
            >(e),
        },
{
    let part = slice_to_vec(slice_subrange(bytes, at, bytes.len()));
    match string_from_utf8(part) {
        Ok(text) => {
            proof {
                vstd::utf8::encode_utf8_decode_utf8(text@);
            }
            Ok(text)
        },
        Err(_) => Err(RuleSetError::InvalidUtf8),
    }
}

/// A header is read back from any buffer that starts with it.
pub proof fn lemma_header_round_trip(type_tag: u32, body_length: u32, rest: Seq<u8>)
    ensures
        header_bytes(type_tag, body_length).len() == 8,
        u32_at(header_bytes(type_tag, body_length) + rest, 0) == type_tag,
        u32_at(header_bytes(type_tag, body_length) + rest, 4) == body_length,
{
    lemma_auto_spec_u32_to_from_le_bytes();
    let b = header_bytes(type_tag, body_length) + rest;
    assert(b.subrange(0, 4) =~= u32_le(type_tag));
    assert(b.subrange(4, 8) =~= u32_le(body_length));
}

/// The first eight bytes of a buffer are the header of what is read from them.
pub proof fn lemma_header_of_read(b: Seq<u8>)
    requires
        b.len() >= 8,
    ensures
        header_bytes(u32_at(b, 0), u32_at(b, 4)) == b.subrange(0, 8),
{
    lemma_auto_spec_u32_to_from_le_bytes();
    assert(header_bytes(u32_at(b, 0), u32_at(b, 4)) =~= b.subrange(0, 4) + b.subrange(4, 8));
    assert(b.subrange(0, 4) + b.subrange(4, 8) =~= b.subrange(0, 8));
}

} // verus!
