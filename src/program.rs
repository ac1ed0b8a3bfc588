//! Identities of guest programs.

use vstd::prelude::*;

use crate::abi::abi_journal;
use crate::crypto::sha256_of;
use crate::schema::{to_array32, BatchVerifierInput};

verus! {

/// Byte `i` of eight 32-bit words laid out little-endian, one after the
/// other.
pub open spec fn le_word_byte(w: Seq<u32>, i: int) -> u8 {
    ((w[i / 4] >> ((8 * (i % 4)) as u32)) & 0xff) as u8
}

/// The 32 bytes of eight words, each little-endian.
pub open spec fn le_words(w: Seq<u32>) -> Seq<u8> {
    Seq::new(32, |i: int| le_word_byte(w, i))
}

/// Lays out eight 32-bit words as 32 bytes, each word little-endian: the
/// digest form of an image identifier or a verifying-key hash.
pub fn words_to_bytes(w: &[u32; 8]) -> (r: [u8; 32])
    ensures
        r@ == le_words(w@),
{
    let mut v: Vec<u8> = Vec::new();
    let mut i: usize = 0;
    while i < 32
        invariant
            i <= 32,
            w@.len() == 8,
            v@.len() == i,
            forall|k: int| 0 <= k < i ==> v@[k] == le_word_byte(w@, k),
        decreases 32 - i,
    {
        let x = w[i / 4];
        let s = (8 * (i % 4)) as u32;
        v.push(((x >> s) & 0xff) as u8);
        i = i + 1;
    }
    assert(v@ =~= le_words(w@));
    to_array32(v.as_slice())
}

/// A RISC Zero guest program: its image and image identifier.
#[derive(Debug, Clone)]
pub struct ProgramRisc0 {
    pub elf: Vec<u8>,
    pub image_id: [u32; 8],
}

impl ProgramRisc0 {
    pub fn new(elf: Vec<u8>, image_id: [u32; 8]) -> (r: ProgramRisc0)
        ensures
            r.elf == elf,
            r.image_id == image_id,
    {
        ProgramRisc0 { elf, image_id }
    }

    /// The image identifier as the contract stores it.
    pub fn program_id(&self) -> (r: [u8; 32])
        ensures
            r@ == le_words(self.image_id@),
    {
        words_to_bytes(&self.image_id)
    }

    /// The identifier the aggregator checks verifier proofs against; for
    /// this backend it is the image identifier.
    pub fn verify_proof_id(&self) -> (r: [u8; 32])
        ensures
            r@ == le_words(self.image_id@),
    {
        self.program_id()
    }
}

/// What the aggregator guest asks the zkVM to vouch for: for each journal,
/// in order, the SHA-256 of its ABI encoding, each bound to the batch's
/// verifier identifier.
pub fn aggregation_claims(input: &BatchVerifierInput) -> (r: Vec<[u8; 32]>)
    ensures
        r@.len() == input.outputs@.len(),
        forall|i: int| 0 <= i < r@.len() ==> (#[trigger] r@[i])@ == sha256_of(abi_journal(input.outputs@[i]@)),
{
    let mut out: Vec<[u8; 32]> = Vec::new();
    let mut i: usize = 0;
    while i < input.outputs.len()
        invariant
            i <= input.outputs.len(),
            out@.len() == i,
            forall|k: int| 0 <= k < i ==> (#[trigger] out@[k])@ == sha256_of(abi_journal(input.outputs@[k]@)),
        decreases input.outputs.len() - i,
    {
        out.push(input.outputs[i].digest());
        i = i + 1;
    }
    out
}

} // verus!
