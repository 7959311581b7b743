//! Little-endian integers and length-prefixed strings over a byte buffer.
use vstd::prelude::*;
use vstd::slice::{slice_subrange, slice_to_vec};
use vstd::utf8::{valid_utf8, decode_utf8, encode_utf8};
use vstd::string::StringSliceAdditionalSpecFns;
use crate::types::{DecodeError, EncodingError};

verus! {

/// The four bytes of `x`, least significant first.
pub open spec fn le_u32(x: u32) -> Seq<u8> {
    seq![(x & 0xff) as u8, ((x >> 8) & 0xff) as u8, ((x >> 16) & 0xff) as u8, ((x >> 24) & 0xff) as u8]
}

/// The two bytes of `x`, least significant first.
pub open spec fn le_u16(x: u16) -> Seq<u8> {
    seq![(x & 0xff) as u8, ((x >> 8) & 0xff) as u8]
}

/// The four bytes of `x` in two's complement, least significant first.
pub open spec fn le_i32(x: i32) -> Seq<u8> {
    le_u32(x as u32)
}

/// The little-endian `u32` stored at `b[p..p + 4]`.
pub open spec fn read_u32(b: Seq<u8>, p: int) -> u32 {
    (b[p] as u32) | ((b[p + 1] as u32) << 8) | ((b[p + 2] as u32) << 16) | ((b[p + 3] as u32) << 24)
}

/// The little-endian `u16` stored at `b[p..p + 2]`.
pub open spec fn read_u16(b: Seq<u8>, p: int) -> u16 {
    (b[p] as u16) | ((b[p + 1] as u16) << 8)
}

/// The little-endian `i32` stored at `b[p..p + 4]`.
pub open spec fn read_i32(b: Seq<u8>, p: int) -> i32 {
    read_u32(b, p) as i32
}

/// A string on the wire: its UTF-8 length as one `u32`, then its UTF-8 bytes.
pub open spec fn enc_string(s: Seq<char>) -> Seq<u8> {
    le_u32(encode_utf8(s).len() as u32) + encode_utf8(s)
}

/// A string fits the wire form when its UTF-8 length fits a `u32`.
pub open spec fn string_fits(s: Seq<char>) -> bool {
    encode_utf8(s).len() <= u32::MAX
}

/// Reads a length-prefixed string at `p`. The length is one `u32`; where that
/// `u32` is zero, the length is the `u32` that follows it.
pub open spec fn parse_string(b: Seq<u8>, p: int) -> Result<(Seq<char>, int), DecodeError> {
    if p + 4 > b.len() {
        Err(DecodeError::TruncatedInput)
    } else if read_u32(b, p) == 0 && p + 8 > b.len() {
        Err(DecodeError::TruncatedInput)
    } else {
        let start = if read_u32(b, p) == 0 { p + 8 } else { p + 4 };
        let len = if read_u32(b, p) == 0 { read_u32(b, p + 4) } else { read_u32(b, p) };
        if start + len > b.len() {
            Err(DecodeError::TruncatedInput)
        } else if !valid_utf8(b.subrange(start, start + len)) {
            Err(DecodeError::InvalidText)
        } else {
            Ok((decode_utf8(b.subrange(start, start + len)), start + len))
        }
    }
}

/// Reading back the bytes of a `u32` gives the `u32`, wherever they stand.
pub proof fn lemma_read_u32(b: Seq<u8>, p: int, x: u32)
    requires
        0 <= p,
        p + 4 <= b.len(),
        b.subrange(p, p + 4) == le_u32(x),
    ensures
        read_u32(b, p) == x,
{
    assert(b[p] == b.subrange(p, p + 4)[0]);
    assert(b[p + 1] == b.subrange(p, p + 4)[1]);
    assert(b[p + 2] == b.subrange(p, p + 4)[2]);
    assert(b[p + 3] == b.subrange(p, p + 4)[3]);
    let b0 = b[p];
    let b1 = b[p + 1];
    let b2 = b[p + 2];
    let b3 = b[p + 3];
    assert(b0 == (x & 0xff) as u8 && b1 == ((x >> 8) & 0xff) as u8 && b2 == ((x >> 16) & 0xff) as u8
        && b3 == ((x >> 24) & 0xff) as u8 ==> (b0 as u32) | ((b1 as u32) << 8) | ((b2 as u32) << 16)
        | ((b3 as u32) << 24) == x) by (bit_vector);
}

/// Reading back the bytes of a `u16` gives the `u16`.
pub proof fn lemma_read_u16(b: Seq<u8>, p: int, x: u16)
    requires
        0 <= p,
        p + 2 <= b.len(),
        b.subrange(p, p + 2) == le_u16(x),
    ensures
        read_u16(b, p) == x,
{
    assert(b[p] == b.subrange(p, p + 2)[0]);
    assert(b[p + 1] == b.subrange(p, p + 2)[1]);
    let b0 = b[p];
    let b1 = b[p + 1];
    assert(b0 == (x & 0xff) as u8 && b1 == ((x >> 8) & 0xff) as u8 ==> (b0 as u16) | ((b1 as u16)
        << 8) == x) by (bit_vector);
}

/// Writing a `u32` that was read gives back the four bytes it was read from.
pub proof fn lemma_write_u32(b: Seq<u8>, p: int)
    requires
        0 <= p,
        p + 4 <= b.len(),
    ensures
        le_u32(read_u32(b, p)) == b.subrange(p, p + 4),
{
    let x = read_u32(b, p);
    let b0 = b[p];
    let b1 = b[p + 1];
    let b2 = b[p + 2];
    let b3 = b[p + 3];
    assert(x == (b0 as u32) | ((b1 as u32) << 8) | ((b2 as u32) << 16) | ((b3 as u32) << 24) ==> (x
        & 0xff) as u8 == b0 && ((x >> 8) & 0xff) as u8 == b1 && ((x >> 16) & 0xff) as u8 == b2 && ((x
        >> 24) & 0xff) as u8 == b3) by (bit_vector);
    assert(le_u32(x) =~= b.subrange(p, p + 4));
}

pub proof fn lemma_write_u16(b: Seq<u8>, p: int)
    requires
        0 <= p,
        p + 2 <= b.len(),
    ensures
        le_u16(read_u16(b, p)) == b.subrange(p, p + 2),
{
    let x = read_u16(b, p);
    let b0 = b[p];
    let b1 = b[p + 1];
    assert(x == (b0 as u16) | ((b1 as u16) << 8) ==> (x & 0xff) as u8 == b0 && ((x >> 8) & 0xff)
        as u8 == b1) by (bit_vector);
    assert(le_u16(x) =~= b.subrange(p, p + 2));
}

/// A signed value survives the trip through its unsigned bit pattern, both ways.
pub proof fn lemma_i32_bits(x: i32, u: u32)
    ensures
        (x as u32) as i32 == x,
        (u as i32) as u32 == u,
{
    assert((x as u32) as i32 == x) by (bit_vector);
    assert((u as i32) as u32 == u) by (bit_vector);
}

pub fn get_u8(input: &[u8], pos: usize) -> (r: u8)
    requires
        pos + 1 <= input@.len(),
    ensures
        r == input@[pos as int],
{
    input[pos]
}

pub fn get_u16(input: &[u8], pos: usize) -> (r: u16)
    requires
        pos + 2 <= input@.len(),
    ensures
        r == read_u16(input@, pos as int),
{
    (input[pos] as u16) | ((input[pos + 1] as u16) << 8)
}

pub fn get_u32(input: &[u8], pos: usize) -> (r: u32)
    requires
        pos + 4 <= input@.len(),
    ensures
        r == read_u32(input@, pos as int),
{
    (input[pos] as u32) | ((input[pos + 1] as u32) << 8) | ((input[pos + 2] as u32) << 16) | ((
    input[pos + 3] as u32) << 24)
}

pub fn get_i32(input: &[u8], pos: usize) -> (r: i32)
    requires
        pos + 4 <= input@.len(),
    ensures
        r == read_i32(input@, pos as int),
{
    get_u32(input, pos) as i32
}

pub fn put_u8(buffer: &mut Vec<u8>, x: u8)
    ensures
        final(buffer)@ == old(buffer)@.push(x),
{
    buffer.push(x);
}

pub fn put_u16(buffer: &mut Vec<u8>, x: u16)
    ensures
        final(buffer)@ == old(buffer)@ + le_u16(x),
{
    buffer.push((x & 0xff) as u8);
    buffer.push(((x >> 8) & 0xff) as u8);
    assert(buffer@ =~= old(buffer)@ + le_u16(x));
}

pub fn put_u32(buffer: &mut Vec<u8>, x: u32)
    ensures
        final(buffer)@ == old(buffer)@ + le_u32(x),
{
    buffer.push((x & 0xff) as u8);
    buffer.push(((x >> 8) & 0xff) as u8);
    buffer.push(((x >> 16) & 0xff) as u8);
    buffer.push(((x >> 24) & 0xff) as u8);
    assert(buffer@ =~= old(buffer)@ + le_u32(x));
}

pub fn put_i32(buffer: &mut Vec<u8>, x: i32)
    ensures
        final(buffer)@ == old(buffer)@ + le_i32(x),
{
    put_u32(buffer, x as u32);
}

/// Relies on std::str::from_utf8: it accepts exactly the well-formed UTF-8
/// byte strings, and the text it returns is what they encode.
#[verifier::external_body]
fn text_from_utf8(bytes: &[u8]) -> (r: Option<String>)
    ensures
        r is Some <==> valid_utf8(bytes@),
        r matches Some(s) ==> s@ == decode_utf8(bytes@),
{
    match std::str::from_utf8(bytes) {
        Ok(s) => Some(s.to_string()),
        Err(_) => None,
    }
}

/// Reads a length-prefixed string at `pos`, accepting both widths of the length.
pub fn read_string(input: &[u8], pos: usize) -> (r: Result<(String, usize), DecodeError>)
    requires
        pos <= input@.len(),
    ensures
        match r {
            Ok((s, q)) => parse_string(input@, pos as int) == Ok::<(Seq<char>, int), DecodeError>(
                (s@, q as int),
            ),
            Err(e) => parse_string(input@, pos as int) == Err::<(Seq<char>, int), DecodeError>(e),
        },
{
    if input.len() - pos < 4 {
        return Err(DecodeError::TruncatedInput);
    }
    let a = get_u32(input, pos);
    let (len, start) = if a == 0 {
        if input.len() - pos < 8 {
            return Err(DecodeError::TruncatedInput);
        }
        (get_u32(input, pos + 4), pos + 8)
    } else {
        (a, pos + 4)
    };
    if ((input.len() - start) as u64) < len as u64 {
        return Err(DecodeError::TruncatedInput);
    }
    let end = start + len as usize;
    let bytes = slice_subrange(input, start, end);
    match text_from_utf8(bytes) {
        Some(s) => Ok((s, end)),
        None => Err(DecodeError::InvalidText),
    }
}

/// Appends the wire form of `s`.
pub fn write_string(buffer: &mut Vec<u8>, s: &String) -> (r: Result<(), EncodingError>)
    ensures
        r is Ok <==> string_fits(s@),
        r is Ok ==> final(buffer)@ == old(buffer)@ + enc_string(s@),
        r is Err ==> final(buffer)@ == old(buffer)@ && r matches Err(EncodingError::InvalidValue),
{
    let bytes = s.as_str().as_bytes();
    if bytes.len() > u32::MAX as usize {
        return Err(EncodingError::InvalidValue);
    }
    put_u32(buffer, bytes.len() as u32);
    let mut v = slice_to_vec(bytes);
    buffer.append(&mut v);
    assert(buffer@ =~= old(buffer)@ + enc_string(s@));
    Ok(())
}

} // verus!
