//! Genomes and their recombination.
use vstd::prelude::*;

verus! {

/// Number of bytes in a genome.
pub const DNA_LEN: usize = 16;

/// One byte of a child genome: the bits set in `mask` come from `a`, the others from `b`.
pub open spec fn mix_byte(mask: u8, a: u8, b: u8) -> u8 {
    (mask & a) | (!mask & b)
}

/// The genome recombined from `a` and `b` under `mask`, byte by byte.
pub open spec fn combined(a: Seq<u8>, b: Seq<u8>, mask: Seq<u8>) -> Seq<u8> {
    Seq::new(16, |i: int| mix_byte(mask[i], a[i], b[i]))
}

/// Recombines two parent genomes: each bit of the child is taken from
/// `dna_1` where `selector` has it set, and from `dna_2` where it does not.
pub fn combine(dna_1: &[u8; 16], dna_2: &[u8; 16], selector: &[u8; 16]) -> (child: [u8; 16])
    ensures
        child@ == combined(dna_1@, dna_2@, selector@),
{
    let mut child: [u8; 16] = [0u8; 16];
    let mut i: usize = 0;
    while i < DNA_LEN
        invariant
            0 <= i <= DNA_LEN,
            child@.len() == 16,
            forall|j: int| 0 <= j < i ==> child@[j] == mix_byte(selector@[j], dna_1@[j], dna_2@[j]),
        decreases DNA_LEN - i,
    {
        child[i] = (selector[i] & dna_1[i]) | (!selector[i] & dna_2[i]);
        i += 1;
    }
    assert(child@ =~= combined(dna_1@, dna_2@, selector@));
    child
}

} // verus!
