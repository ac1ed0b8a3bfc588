//! The wire schema shared by the guest programs, the host and the verifier
//! contract.

use vstd::prelude::*;

verus! {

/// A 48-byte value split into a 32-byte and a 16-byte half, as the contract
/// packs it.
#[derive(Debug, Clone, Copy)]
pub struct Bytes48 {
    pub first: [u8; 32],
    pub second: [u8; 16],
}

impl View for Bytes48 {
    type V = Seq<u8>;

    open spec fn view(&self) -> Seq<u8> {
        self.first@ + self.second@
    }
}

/// All 48 bytes are zero.
pub open spec fn all_zero(s: Seq<u8>) -> bool {
    forall|i: int| 0 <= i < s.len() ==> s[i] == 0
}

/// Relies on `<[u8; 32]>::try_from` on a slice of exactly 32 bytes.
#[verifier::external_body]
pub(crate) fn to_array32(b: &[u8]) -> (r: [u8; 32])
    requires
        b@.len() == 32,
    ensures
        r@ == b@,
{
    <[u8; 32]>::try_from(b).unwrap()
}

/// Relies on `<[u8; 16]>::try_from` on a slice of exactly 16 bytes.
#[verifier::external_body]
pub(crate) fn to_array16(b: &[u8]) -> (r: [u8; 16])
    requires
        b@.len() == 16,
    ensures
        r@ == b@,
{
    <[u8; 16]>::try_from(b).unwrap()
}

impl Bytes48 {
    /// Splits 48 bytes into the two halves.
    pub fn from_slice(b: &[u8]) -> (r: Bytes48)
        requires
            b@.len() == 48,
        ensures
            r@ == b@,
    {
        let first = to_array32(vstd::slice::slice_subrange(b, 0, 32));
        let second = to_array16(vstd::slice::slice_subrange(b, 32, 48));
        let r = Bytes48 { first, second };
        assert(r@ =~= b@);
        r
    }

    /// Whether both halves are zero.
    pub fn is_zero(&self) -> (r: bool)
        ensures
            r == all_zero(self@),
    {
        let mut i: usize = 0;
        while i < 32
            invariant
                i <= 32,
                self.first@.len() == 32,
                forall|j: int| 0 <= j < i ==> self.first@[j] == 0,
            decreases 32 - i,
        {
            if self.first[i] != 0 {
                assert(self@[i as int] != 0);
                return false;
            }
            i = i + 1;
        }
        let mut k: usize = 0;
        while k < 16
            invariant
                k <= 16,
                self.first@.len() == 32,
                self.second@.len() == 16,
                forall|j: int| 0 <= j < 32 ==> self.first@[j] == 0,
                forall|j: int| 0 <= j < k ==> self.second@[j] == 0,
            decreases 16 - k,
        {
            if self.second[k] != 0 {
                assert(self@[32 + k] != 0);
                return false;
            }
            k = k + 1;
        }
        assert forall|j: int| 0 <= j < self@.len() implies self@[j] == 0 by {
            if j >= 32 {
                assert(self@[j] == self.second@[j - 32]);
            }
        }
        true
    }

    /// The 48 bytes in order.
    pub fn to_bytes(&self) -> (r: Vec<u8>)
        ensures
            r@ == self@,
    {
        let mut v: Vec<u8> = Vec::new();
        crate::cbor::push_bytes(&mut v, self.first.as_slice());
        crate::cbor::push_bytes(&mut v, self.second.as_slice());
        v
    }
}

/// A platform configuration register: its index and value.
#[derive(Debug, Clone, Copy)]
pub struct Pcr {
    pub index: u64,
    pub value: Bytes48,
}

/// The view of a list of PCRs: index and the 48 value bytes.
pub open spec fn pcrs_view(s: Seq<Pcr>) -> Seq<(u64, Seq<u8>)> {
    s.map_values(|p: Pcr| (p.index, p.value@))
}

/// The outcome recorded in a journal.
#[derive(Debug, Clone, Copy, PartialEq, Eq, Structural)]
pub enum VerificationResult {
    Success,
    RootCertNotTrusted,
    IntermediateCertsNotTrusted,
    InvalidTimestamp,
}

/// The two proving backends, in the contract's order.
#[derive(Debug, Clone, Copy, PartialEq, Eq, Structural)]
pub enum ZkCoProcessorType {
    RiscZero,
    Succinct,
}

/// The input of the verifier guest: how many leading certificates are
/// trusted, and the raw report.
#[derive(Debug, Clone)]
pub struct VerifierInput {
    pub trusted_certs_prefix_len: u8,
    pub attestation_report: Vec<u8>,
}

/// The public output of the verifier guest.
#[derive(Debug, Clone)]
pub struct VerifierJournal {
    pub result: VerificationResult,
    pub certs: Vec<[u8; 32]>,
    pub trusted_certs_prefix_len: u8,
    pub user_data: Vec<u8>,
    pub nonce: Vec<u8>,
    pub public_key: Vec<u8>,
    pub pcrs: Vec<Pcr>,
    pub module_id: String,
    pub timestamp: u64,
}

/// The input of the aggregator guest.
#[derive(Debug, Clone)]
pub struct BatchVerifierInput {
    pub verifier_vk: [u8; 32],
    pub outputs: Vec<VerifierJournal>,
}

/// The public output of the aggregator guest: what it verified, verbatim.
#[derive(Debug, Clone)]
pub struct BatchVerifierJournal {
    pub verifier_vk: [u8; 32],
    pub outputs: Vec<VerifierJournal>,
}


pub struct JournalView {
    pub result: VerificationResult,
    pub certs: Seq<Seq<u8>>,
    pub trusted_certs_prefix_len: u8,
    pub user_data: Seq<u8>,
    pub nonce: Seq<u8>,
    pub public_key: Seq<u8>,
    pub pcrs: Seq<(u64, Seq<u8>)>,
    pub module_id: Seq<char>,
    pub timestamp: u64,
}

/// The 32-byte digests as byte sequences.
pub open spec fn digests_view(s: Seq<[u8; 32]>) -> Seq<Seq<u8>> {
    s.map_values(|d: [u8; 32]| d@)
}

impl View for VerifierJournal {
    type V = JournalView;

    open spec fn view(&self) -> JournalView {
        JournalView {
            result: self.result,
            certs: digests_view(self.certs@),
            trusted_certs_prefix_len: self.trusted_certs_prefix_len,
            user_data: self.user_data@,
            nonce: self.nonce@,
            public_key: self.public_key@,
            pcrs: pcrs_view(self.pcrs@),
            module_id: self.module_id@,
            timestamp: self.timestamp,
        }
    }
}


/// Whether two byte strings are equal.
pub fn bytes_equal(a: &[u8], b: &[u8]) -> (r: bool)
    ensures
        r == (a@ == b@),
{
    if a.len() != b.len() {
        return false;
    }
    let mut i: usize = 0;
    while i < a.len()
        invariant
            a.len() == b.len(),
            i <= a.len(),
            forall|j: int| 0 <= j < i ==> a@[j] == b@[j],
        decreases a.len() - i,
    {
        if a[i] != b[i] {
            return false;
        }
        i = i + 1;
    }
    assert(a@ =~= b@);
    true
}

} // verus!
