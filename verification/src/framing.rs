//! Length-prefixed frames.
//!
//! A frame is a payload behind its length: four bytes that spell the number
//! of payload bytes, most significant byte first. Four zero bytes are the
//! acknowledgement that carries no payload.

use crate::numbers::be_nat;
use byteorder::{ByteOrder, NetworkEndian};
use vstd::prelude::*;

verus! {

/// Number of bytes of a length prefix.
pub const PREFIX_BYTES: usize = 4;

/// The four bytes that spell `n`, most significant byte first.
pub open spec fn length_prefix(n: u32) -> Seq<u8> {
    seq![
        (n / 0x100_0000) as u8,
        ((n / 0x1_0000) % 0x100) as u8,
        ((n / 0x100) % 0x100) as u8,
        (n % 0x100) as u8,
    ]
}

/// The frame that carries `payload`.
pub open spec fn framed(payload: Seq<u8>) -> Seq<u8>
    recommends
        payload.len() <= u32::MAX,
{
    length_prefix(payload.len() as u32) + payload
}

/// The payload of the frame that `bytes` are, where they are one: a length
/// prefix and exactly as many bytes behind it as the prefix says.
pub open spec fn payload_of(bytes: Seq<u8>) -> Option<Seq<u8>> {
    if bytes.len() >= PREFIX_BYTES && be_nat(bytes.take(PREFIX_BYTES as int)) == bytes.len()
        - PREFIX_BYTES {
        Some(bytes.skip(PREFIX_BYTES as int))
    } else {
        None
    }
}

/// Four bytes spell the number that their value as a big-endian number is.
pub proof fn lemma_be_nat_of_four(bytes: Seq<u8>)
    requires
        bytes.len() == 4,
    ensures
        be_nat(bytes) == bytes[0] as nat * 0x100_0000 + bytes[1] as nat * 0x1_0000 + bytes[2] as nat
            * 0x100 + bytes[3] as nat,
{
    let three = bytes.drop_last();
    let two = three.drop_last();
    let one = two.drop_last();
    assert(be_nat(one.drop_last()) == 0);
    assert(be_nat(two) == be_nat(one) * 256 + bytes[1] as nat);
    assert(be_nat(bytes) == be_nat(three) * 256 + bytes[3] as nat);
}

/// A length prefix spells the length that it was made from, and only one
/// prefix spells a given length.
pub proof fn lemma_length_prefix_round_trip(n: u32)
    ensures
        length_prefix(n).len() == PREFIX_BYTES,
        be_nat(length_prefix(n)) == n,
        forall|bytes: Seq<u8>|
            bytes.len() == PREFIX_BYTES && be_nat(bytes) == n ==> bytes == length_prefix(n),
{
    lemma_be_nat_of_four(length_prefix(n));
    assert((n / 0x100_0000) * 0x100_0000 + ((n / 0x1_0000) % 0x100) * 0x1_0000 + ((n / 0x100)
        % 0x100) * 0x100 + n % 0x100 == n) by (bit_vector);
    assert(n / 0x100_0000 < 0x100) by (bit_vector);
    assert forall|bytes: Seq<u8>|
        bytes.len() == PREFIX_BYTES && be_nat(bytes) == n implies bytes == length_prefix(n) by {
        lemma_be_nat_of_four(bytes);
        lemma_four_bytes_from_value(bytes[0], bytes[1], bytes[2], bytes[3]);
    }
}

/// Each of four bytes can be read off the number that they spell.
proof fn lemma_four_bytes_from_value(b0: u8, b1: u8, b2: u8, b3: u8)
    ensures
        ({
            let n = b0 as int * 0x100_0000 + b1 as int * 0x1_0000 + b2 as int * 0x100 + b3 as int;
            &&& n / 0x100_0000 == b0
            &&& (n / 0x1_0000) % 0x100 == b1
            &&& (n / 0x100) % 0x100 == b2
            &&& n % 0x100 == b3
        }),
{
    assert({
        let n = b0 as int * 0x100_0000 + b1 as int * 0x1_0000 + b2 as int * 0x100 + b3 as int;
        &&& n / 0x100_0000 == b0
        &&& (n / 0x1_0000) % 0x100 == b1
        &&& (n / 0x100) % 0x100 == b2
        &&& n % 0x100 == b3
    }) by (bit_vector);
}

/// Unframing undoes framing.
pub proof fn lemma_payload_of_framed(payload: Seq<u8>)
    requires
        payload.len() <= u32::MAX,
    ensures
        payload_of(framed(payload)) == Some(payload),
{
    let n = payload.len() as u32;
    lemma_length_prefix_round_trip(n);
    assert(framed(payload).take(PREFIX_BYTES as int) =~= length_prefix(n));
}

/// `ByteOrder::write_u32` in network order, on a buffer of four bytes: the
/// four bytes of `n`, most significant byte first.
#[verifier::external_body]
fn network_bytes_of(n: u32) -> (out: Vec<u8>)
    ensures
        out@ == length_prefix(n),
{
    let mut out = vec![0u8; 4];
    NetworkEndian::write_u32(&mut out, n);
    out
}

/// `ByteOrder::read_u32` in network order: the number that the first four
/// bytes spell, most significant byte first. The crate panics on fewer than
/// four bytes.
#[verifier::external_body]
fn network_u32_of(bytes: &[u8]) -> (n: u32)
    requires
        bytes@.len() >= 4,
    ensures
        n == be_nat(bytes@.take(4)),
{
    NetworkEndian::read_u32(bytes)
}

/// The acknowledgement frame: four zero bytes, which is also the frame of the
/// empty payload.
pub fn zero_frame() -> (out: Vec<u8>)
    ensures
        out@ == seq![0u8, 0u8, 0u8, 0u8],
        out@ == framed(Seq::<u8>::empty()),
{
    network_bytes_of(0)
}

/// The frame that carries `payload`, where its length can be spelled in a
/// prefix.
pub fn frame(payload: &[u8]) -> (out: Option<Vec<u8>>)
    ensures
        out is Some <==> payload@.len() <= u32::MAX,
        out matches Some(bytes) ==> bytes@ == framed(payload@),
{
    if payload.len() > u32::MAX as usize {
        return None;
    }
    let mut out = network_bytes_of(payload.len() as u32);
    let mut i: usize = 0;
    while i < payload.len()
        invariant
            i <= payload@.len(),
            out@ == length_prefix(payload@.len() as u32) + payload@.take(i as int),
        decreases payload@.len() - i,
    {
        out.push(payload[i]);
        i += 1;
    }
    Some(out)
}

/// The payload length that a length prefix announces. Bytes that are not a
/// prefix, being more or fewer than four, announce nothing.
pub fn frame_length(header: &[u8]) -> (len: Option<u32>)
    ensures
        len is Some <==> header@.len() == PREFIX_BYTES,
        len matches Some(n) ==> header@ == length_prefix(n),
{
    if header.len() != PREFIX_BYTES {
        return None;
    }
    let n = network_u32_of(header);
    proof {
        lemma_length_prefix_round_trip(n);
    }
    Some(n)
}

/// The payload length that a length prefix announces, where it is no more
/// than `limit`. A reader that goes by it never makes room for more than
/// `limit` bytes.
pub fn bounded_frame_length(header: &[u8], limit: u32) -> (len: Option<u32>)
    ensures
        len is Some <==> header@.len() == PREFIX_BYTES && be_nat(header@) <= limit,
        len matches Some(n) ==> header@ == length_prefix(n) && n <= limit,
{
    match frame_length(header) {
        Some(n) => {
            proof {
                lemma_length_prefix_round_trip(n);
            }
            if n <= limit {
                Some(n)
            } else {
                None
            }
        },
        None => None,
    }
}

/// The payload of a frame, where `bytes` are one.
pub fn unframe(bytes: &[u8]) -> (out: Option<Vec<u8>>)
    ensures
        match out {
            Some(payload) => payload_of(bytes@) == Some(payload@),
            None => payload_of(bytes@) is None,
        },
{
    if bytes.len() < PREFIX_BYTES {
        return None;
    }
    let announced = network_u32_of(bytes);
    if announced as usize != bytes.len() - PREFIX_BYTES {
        return None;
    }
    let mut out: Vec<u8> = Vec::new();
    let mut i: usize = PREFIX_BYTES;
    while i < bytes.len()
        invariant
            PREFIX_BYTES <= i <= bytes@.len(),
            out@ == bytes@.subrange(PREFIX_BYTES as int, i as int),
        decreases bytes@.len() - i,
    {
        out.push(bytes[i]);
        i += 1;
    }
    Some(out)
}

} // verus!
