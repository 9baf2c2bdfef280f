//! The discriminant codec.
//!
//! The discriminant slot of a handle is kept in big-endian byte order whatever
//! the host's order is, so that the least significant byte of the logical value
//! is always the last byte of the handle. That byte carries the mode bit.

use vstd::prelude::*;

verus! {

/// Number of bytes in one slot of a handle.
pub const WORD_BYTES: usize = 8;

/// The big-endian bytes of `logical`, most significant first.
pub open spec fn slot_bytes(logical: u64) -> Seq<u8> {
    seq![
        ((logical >> 56) & 0xff) as u8,
        ((logical >> 48) & 0xff) as u8,
        ((logical >> 40) & 0xff) as u8,
        ((logical >> 32) & 0xff) as u8,
        ((logical >> 24) & 0xff) as u8,
        ((logical >> 16) & 0xff) as u8,
        ((logical >> 8) & 0xff) as u8,
        (logical & 0xff) as u8,
    ]
}

/// The value whose big-endian bytes are the first eight of `raw`.
pub open spec fn slot_value(raw: Seq<u8>) -> u64
    recommends
        raw.len() == 8,
{
    (raw[0] as u64) << 56 | (raw[1] as u64) << 48 | (raw[2] as u64) << 40 | (raw[3] as u64)
        << 32 | (raw[4] as u64) << 24 | (raw[5] as u64) << 16 | (raw[6] as u64) << 8
        | (raw[7] as u64)
}

/// Produces the stored form of a logical discriminant.
pub fn encode_discriminant(logical: u64) -> (raw: [u8; 8])
    ensures
        raw@ == slot_bytes(logical),
{
    let raw: [u8; 8] = [
        ((logical >> 56) & 0xff) as u8,
        ((logical >> 48) & 0xff) as u8,
        ((logical >> 40) & 0xff) as u8,
        ((logical >> 32) & 0xff) as u8,
        ((logical >> 24) & 0xff) as u8,
        ((logical >> 16) & 0xff) as u8,
        ((logical >> 8) & 0xff) as u8,
        (logical & 0xff) as u8,
    ];
    assert(raw@ =~= slot_bytes(logical));
    raw
}

/// Recovers the logical discriminant from its stored form.
pub fn decode_discriminant(raw: &[u8; 8]) -> (logical: u64)
    ensures
        logical == slot_value(raw@),
{
    (raw[0] as u64) << 56 | (raw[1] as u64) << 48 | (raw[2] as u64) << 40 | (raw[3] as u64)
        << 32 | (raw[4] as u64) << 24 | (raw[5] as u64) << 16 | (raw[6] as u64) << 8
        | (raw[7] as u64)
}

proof fn lemma_compose(b0: u8, b1: u8, b2: u8, b3: u8, b4: u8, b5: u8, b6: u8, b7: u8)
    by (bit_vector)
    ensures
        ({
            let w = (b0 as u64) << 56 | (b1 as u64) << 48 | (b2 as u64) << 40 | (b3 as u64) << 32 | (
            b4 as u64) << 24 | (b5 as u64) << 16 | (b6 as u64) << 8 | (b7 as u64);
            &&& (w >> 56) & 0xff == b0
            &&& (w >> 48) & 0xff == b1
            &&& (w >> 40) & 0xff == b2
            &&& (w >> 32) & 0xff == b3
            &&& (w >> 24) & 0xff == b4
            &&& (w >> 16) & 0xff == b5
            &&& (w >> 8) & 0xff == b6
            &&& w & 0xff == b7
            &&& w % 2 == b7 % 2
        }),
{
}

proof fn lemma_split(w: u64)
    by (bit_vector)
    ensures
        w == (((w >> 56) & 0xff) as u8 as u64) << 56 | (((w >> 48) & 0xff) as u8 as u64) << 48 | (((w
            >> 40) & 0xff) as u8 as u64) << 40 | (((w >> 32) & 0xff) as u8 as u64) << 32 | (((w
            >> 24) & 0xff) as u8 as u64) << 24 | (((w >> 16) & 0xff) as u8 as u64) << 16 | (((w
            >> 8) & 0xff) as u8 as u64) << 8 | ((w & 0xff) as u8 as u64),
{
}

/// Decoding undoes encoding: every logical value, a pointer or a tag, comes
/// back from its stored form unchanged.
pub proof fn lemma_decode_encode(logical: u64)
    ensures
        slot_bytes(logical).len() == 8,
        slot_value(slot_bytes(logical)) == logical,
{
    lemma_split(logical);
}

/// Encoding undoes decoding: every stored form of eight bytes comes back from
/// its logical value unchanged.
pub proof fn lemma_encode_decode(raw: Seq<u8>)
    requires
        raw.len() == 8,
    ensures
        slot_bytes(slot_value(raw)) == raw,
{
    lemma_compose(raw[0], raw[1], raw[2], raw[3], raw[4], raw[5], raw[6], raw[7]);
    assert(slot_bytes(slot_value(raw)) =~= raw);
}

/// The least significant byte of the logical value is the last stored byte,
/// so the two agree on the mode bit.
pub proof fn lemma_low_byte(raw: Seq<u8>)
    requires
        raw.len() == 8,
    ensures
        slot_value(raw) & 0xff == raw[7],
        slot_value(raw) % 2 == raw[7] % 2,
{
    lemma_compose(raw[0], raw[1], raw[2], raw[3], raw[4], raw[5], raw[6], raw[7]);
}

} // verus!
