//! Entropy for new genomes: the randomness seed, the block and the caller,
//! encoded with SCALE and hashed with 128-bit BLAKE2.
use parity_scale_codec::Encode;
use vstd::prelude::*;

verus! {

/// What the environment supplies for drawing a genome: the randomness
/// oracle's output and the block it belongs to, and the position of the
/// calling transaction in its block, if it has one.
#[derive(Clone, Copy, Debug, PartialEq, Eq)]
pub struct Entropy {
    pub seed: [u8; 32],
    pub block_number: u64,
    pub extrinsic_index: Option<u32>,
}

/// The `n` low bytes of `x`, least significant first.
pub open spec fn le_bytes(x: nat, n: nat) -> Seq<u8>
    decreases n,
{
    if n == 0 {
        seq![]
    } else {
        seq![(x % 256) as u8] + le_bytes(x / 256, (n - 1) as nat)
    }
}

/// The SCALE encoding of an optional `u32`: a tag byte, then the value.
pub open spec fn option_u32_bytes(o: Option<u32>) -> Seq<u8> {
    match o {
        Some(v) => seq![1u8] + le_bytes(v as nat, 4),
        None => seq![0u8],
    }
}

/// The bytes that are hashed to draw a genome for `who`.
pub open spec fn entropy_payload(e: Entropy, who: u64) -> Seq<u8> {
    e.seed@ + le_bytes(e.block_number as nat, 8) + le_bytes(who as nat, 8) + option_u32_bytes(
        e.extrinsic_index,
    )
}

/// The 128-bit BLAKE2b digest of `data`.
pub uninterp spec fn blake2_128_of(data: Seq<u8>) -> Seq<u8>;

/// The genome drawn for `who` from `e`.
pub open spec fn drawn_dna(e: Entropy, who: u64) -> Seq<u8> {
    blake2_128_of(entropy_payload(e, who))
}

/// Relies on parity_scale_codec's `Encode` for a tuple: its fields one after
/// another, a byte array as its bytes, an integer as its little-endian bytes,
/// an `Option` as a tag byte (0 or 1) followed by the value.
#[verifier::external_body]
fn encode_payload(e: &Entropy, who: u64) -> (r: Vec<u8>)
    ensures
        r@ == entropy_payload(*e, who),
{
    ((e.seed, e.block_number), who, e.extrinsic_index).encode()
}

/// Relies on sp_io::hashing::blake2_128: the 128-bit BLAKE2b digest, which
/// depends on the bytes alone.
#[verifier::external_body]
fn blake2_128(data: &Vec<u8>) -> (r: [u8; 16])
    ensures
        r@ == blake2_128_of(data@),
{
    sp_io::hashing::blake2_128(data.as_slice())
}

/// The genome drawn for `who` from the environment's entropy `e`: the
/// BLAKE2-128 digest of the SCALE encoding of `((seed, block_number), who,
/// extrinsic_index)`.
pub fn random_value(who: u64, e: &Entropy) -> (dna: [u8; 16])
    ensures
        dna@ == drawn_dna(*e, who),
{
    let payload = encode_payload(e, who);
    blake2_128(&payload)
}

} // verus!
