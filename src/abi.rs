//! ABI encoding of the wire schema, through alloy's Solidity codec.

use alloy_primitives::{Bytes, B128, B256};
use alloy_sol_types::sol_data::{Array, Bytes as SolBytes, FixedBytes, String as SolString, Uint};
use alloy_sol_types::SolType;
use vstd::prelude::*;

use crate::error::AttestError;
use crate::schema::{
    digests_view, pcrs_view, BatchVerifierInput, BatchVerifierJournal, Bytes48, JournalView, Pcr,
    VerificationResult, VerifierInput, VerifierJournal,
};

verus! {

type InputAbi = (Uint<8>, SolBytes);

type PcrAbi = (Uint<64>, (FixedBytes<32>, FixedBytes<16>));

type JournalAbi = (
    Uint<8>,
    Array<FixedBytes<32>>,
    Uint<8>,
    SolBytes,
    SolBytes,
    SolBytes,
    Array<PcrAbi>,
    SolString,
    Uint<64>,
);

type BatchAbi = (FixedBytes<32>, Array<JournalAbi>);

/// A journal as the codec hands it back: the result as its `uint8` code and
/// each PCR as index and the two halves of its value.
pub struct JournalParts {
    pub result: u8,
    pub certs: Vec<[u8; 32]>,
    pub trusted_certs_prefix_len: u8,
    pub user_data: Vec<u8>,
    pub nonce: Vec<u8>,
    pub public_key: Vec<u8>,
    pub pcrs: Vec<(u64, [u8; 32], [u8; 16])>,
    pub module_id: String,
    pub timestamp: u64,
}

pub struct JournalPartsView {
    pub result: u8,
    pub certs: Seq<Seq<u8>>,
    pub trusted_certs_prefix_len: u8,
    pub user_data: Seq<u8>,
    pub nonce: Seq<u8>,
    pub public_key: Seq<u8>,
    pub pcrs: Seq<(u64, Seq<u8>)>,
    pub module_id: Seq<char>,
    pub timestamp: u64,
}

impl View for JournalParts {
    type V = JournalPartsView;

    open spec fn view(&self) -> JournalPartsView {
        JournalPartsView {
            result: self.result,
            certs: digests_view(self.certs@),
            trusted_certs_prefix_len: self.trusted_certs_prefix_len,
            user_data: self.user_data@,
            nonce: self.nonce@,
            public_key: self.public_key@,
            pcrs: self.pcrs@.map_values(|p: (u64, [u8; 32], [u8; 16])| (p.0, p.1@ + p.2@)),
            module_id: self.module_id@,
            timestamp: self.timestamp,
        }
    }
}

/// The `uint8` code of a verification result.
pub open spec fn result_code(r: VerificationResult) -> u8 {
    match r {
        VerificationResult::Success => 0,
        VerificationResult::RootCertNotTrusted => 1,
        VerificationResult::IntermediateCertsNotTrusted => 2,
        VerificationResult::InvalidTimestamp => 3,
    }
}

/// The verification result with a `uint8` code.
pub open spec fn result_of_code(c: u8) -> Option<VerificationResult> {
    if c == 0 {
        Some(VerificationResult::Success)
    } else if c == 1 {
        Some(VerificationResult::RootCertNotTrusted)
    } else if c == 2 {
        Some(VerificationResult::IntermediateCertsNotTrusted)
    } else if c == 3 {
        Some(VerificationResult::InvalidTimestamp)
    } else {
        None
    }
}

/// The journal that decoded parts describe, when the result code is known.
pub open spec fn journal_of_parts(p: JournalPartsView) -> Option<JournalView> {
    match result_of_code(p.result) {
        Some(r) => Some(
            JournalView {
                result: r,
                certs: p.certs,
                trusted_certs_prefix_len: p.trusted_certs_prefix_len,
                user_data: p.user_data,
                nonce: p.nonce,
                public_key: p.public_key,
                pcrs: p.pcrs,
                module_id: p.module_id,
                timestamp: p.timestamp,
            },
        ),
        None => None,
    }
}

pub uninterp spec fn abi_input(prefix: u8, report: Seq<u8>) -> Seq<u8>;

pub uninterp spec fn abi_input_decoded(b: Seq<u8>) -> Option<(u8, Seq<u8>)>;

pub uninterp spec fn abi_journal(j: JournalView) -> Seq<u8>;

pub uninterp spec fn abi_journal_decoded(b: Seq<u8>) -> Option<JournalPartsView>;

pub uninterp spec fn abi_batch(vk: Seq<u8>, outputs: Seq<JournalView>) -> Seq<u8>;

pub uninterp spec fn abi_batch_decoded(b: Seq<u8>) -> Option<(Seq<u8>, Seq<JournalPartsView>)>;

/// Relies on alloy_sol_types' SolValue::abi_encode of the tuple
/// `(uint8, bytes)`: the encoding depends on the values alone.
#[verifier::external_body]
fn encode_input(prefix: u8, report: &Vec<u8>) -> (r: Vec<u8>)
    ensures
        r@ == abi_input(prefix, report@),
{
    InputAbi::abi_encode(&(prefix, Bytes::from(report.clone())))
}

/// Relies on alloy_sol_types' SolValue::abi_decode of the tuple
/// `(uint8, bytes)`: `None` when the bytes do not decode.
#[verifier::external_body]
fn decode_input(b: &[u8]) -> (r: Option<(u8, Vec<u8>)>)
    ensures
        match r {
            Some((p, v)) => abi_input_decoded(b@) == Some((p, v@)),
            None => abi_input_decoded(b@) is None,
        },
{
    let (p, v) = InputAbi::abi_decode(b).ok()?;
    Some((p, v.to_vec()))
}

/// Relies on alloy_sol_types' SolValue::abi_encode of the journal tuple
/// `(uint8, bytes32[], uint8, bytes, bytes, bytes, (uint64, (bytes32,
/// bytes16))[], string, uint64)`: the encoding depends on the values alone.
#[verifier::external_body]
fn encode_journal(j: &VerifierJournal) -> (r: Vec<u8>)
    ensures
        r@ == abi_journal(j@),
{
    let c: Vec<B256> = j.certs.iter().map(|d| B256::from(*d)).collect();
    let q: Vec<(u64, (B256, B128))> = j.pcrs.iter().map(|p| (p.index, (B256::from(p.value.first), B128::from(p.value.second)))).collect();
    let (u, n, k) = (Bytes::from(j.user_data.clone()), Bytes::from(j.nonce.clone()), Bytes::from(j.public_key.clone()));
    JournalAbi::abi_encode(&(j.result as u8, c, j.trusted_certs_prefix_len, u, n, k, q, j.module_id.clone(), j.timestamp))
}

/// Relies on alloy_sol_types' SolValue::abi_decode of the journal tuple:
/// `None` when the bytes do not decode.
#[verifier::external_body]
fn decode_journal(b: &[u8]) -> (r: Option<JournalParts>)
    ensures
        match r {
            Some(p) => abi_journal_decoded(b@) == Some(p@),
            None => abi_journal_decoded(b@) is None,
        },
{
    let (r, c, p, u, n, k, q, m, t) = JournalAbi::abi_decode(b).ok()?;
    let certs = c.into_iter().map(|x| x.0).collect();
    let pcrs = q.into_iter().map(|(i, (f, s))| (i, f.0, s.0)).collect();
    Some(JournalParts { result: r, certs, trusted_certs_prefix_len: p, user_data: u.to_vec(), nonce: n.to_vec(), public_key: k.to_vec(), pcrs, module_id: m, timestamp: t })
}

/// Relies on alloy_sol_types' SolValue::abi_encode of `(bytes32,
/// journal[])`: the encoding depends on the values alone.
#[verifier::external_body]
fn encode_batch(vk: &[u8; 32], outputs: &Vec<VerifierJournal>) -> (r: Vec<u8>)
    ensures
        r@ == abi_batch(vk@, outputs@.map_values(|j: VerifierJournal| j@)),
{
    let outs: Vec<_> = outputs.iter().map(|j| (j.result as u8, j.certs.iter().map(|d| B256::from(*d)).collect::<Vec<_>>(), j.trusted_certs_prefix_len, Bytes::from(j.user_data.clone()), Bytes::from(j.nonce.clone()), Bytes::from(j.public_key.clone()), j.pcrs.iter().map(|p| (p.index, (B256::from(p.value.first), B128::from(p.value.second)))).collect::<Vec<_>>(), j.module_id.clone(), j.timestamp)).collect();
    BatchAbi::abi_encode(&(B256::from(*vk), outs))
}

/// Relies on alloy_sol_types' SolValue::abi_decode of `(bytes32,
/// journal[])`: `None` when the bytes do not decode.
#[verifier::external_body]
fn decode_batch(b: &[u8]) -> (r: Option<([u8; 32], Vec<JournalParts>)>)
    ensures
        match r {
            Some((vk, ps)) => abi_batch_decoded(b@) == Some((vk@, ps@.map_values(|p: JournalParts| p@))),
            None => abi_batch_decoded(b@) is None,
        },
{
    let (vk, outs) = BatchAbi::abi_decode(b).ok()?;
    let ps = outs.into_iter().map(|(r, c, p, u, n, k, q, m, t)| JournalParts { result: r, certs: c.into_iter().map(|x| x.0).collect(), trusted_certs_prefix_len: p, user_data: u.to_vec(), nonce: n.to_vec(), public_key: k.to_vec(), pcrs: q.into_iter().map(|(i, (f, s))| (i, f.0, s.0)).collect(), module_id: m, timestamp: t }).collect();
    Some((vk.0, ps))
}


/// The journal built from decoded parts.
fn journal_from_parts(p: JournalParts) -> (r: Result<VerifierJournal, AttestError>)
    ensures
        match journal_of_parts(p@) {
            Some(j) => r matches Ok(x) && x@ == j,
            None => r == Err::<VerifierJournal, AttestError>(AttestError::AbiDecode),
        },
{
    let result = if p.result == 0 {
        VerificationResult::Success
    } else if p.result == 1 {
        VerificationResult::RootCertNotTrusted
    } else if p.result == 2 {
        VerificationResult::IntermediateCertsNotTrusted
    } else if p.result == 3 {
        VerificationResult::InvalidTimestamp
    } else {
        return Err(AttestError::AbiDecode);
    };
    let ghost pv = p@;
    let mut pcrs: Vec<Pcr> = Vec::new();
    let mut i: usize = 0;
    while i < p.pcrs.len()
        invariant
            i <= p.pcrs.len(),
            pv.pcrs == p.pcrs@.map_values(|q: (u64, [u8; 32], [u8; 16])| (q.0, q.1@ + q.2@)),
            pcrs_view(pcrs@) == pv.pcrs.take(i as int),
        decreases p.pcrs.len() - i,
    {
        let (index, first, second) = p.pcrs[i];
        let ghost prev = pcrs@;
        pcrs.push(Pcr { index, value: Bytes48 { first, second } });
        proof {
            assert(pcrs_view(pcrs@) =~= pcrs_view(prev).push(pv.pcrs[i as int]));
            assert(pv.pcrs.take(i + 1) =~= pv.pcrs.take(i as int).push(pv.pcrs[i as int]));
        }
        i = i + 1;
    }
    proof {
        assert(pv.pcrs.take(i as int) =~= pv.pcrs);
    }
    Ok(
        VerifierJournal {
            result,
            certs: p.certs,
            trusted_certs_prefix_len: p.trusted_certs_prefix_len,
            user_data: p.user_data,
            nonce: p.nonce,
            public_key: p.public_key,
            pcrs,
            module_id: p.module_id,
            timestamp: p.timestamp,
        },
    )
}

/// The journals that a list of decoded parts describe, if every result code
/// is known.
pub open spec fn journals_of_parts(ps: Seq<JournalPartsView>) -> Option<Seq<JournalView>>
    decreases ps.len(),
{
    if ps.len() == 0 {
        Some(Seq::empty())
    } else {
        match (journals_of_parts(ps.drop_last()), journal_of_parts(ps.last())) {
            (Some(js), Some(j)) => Some(js.push(j)),
            _ => None,
        }
    }
}

/// The view of a list of journals.
pub open spec fn journals_view(js: Seq<VerifierJournal>) -> Seq<JournalView> {
    js.map_values(|j: VerifierJournal| j@)
}

proof fn lemma_journals_of_parts_none(ps: Seq<JournalPartsView>, i: int)
    requires
        0 <= i <= ps.len(),
        journals_of_parts(ps.take(i)) is None,
    ensures
        journals_of_parts(ps) is None,
    decreases ps.len() - i,
{
    if i < ps.len() {
        assert(ps.take(i + 1).drop_last() =~= ps.take(i));
        lemma_journals_of_parts_none(ps, i + 1);
    } else {
        assert(ps.take(i) =~= ps);
    }
}

fn journals_from_parts(ps: Vec<JournalParts>) -> (r: Result<Vec<VerifierJournal>, AttestError>)
    ensures
        match journals_of_parts(ps@.map_values(|p: JournalParts| p@)) {
            Some(js) => r matches Ok(x) && journals_view(x@) == js,
            None => r == Err::<Vec<VerifierJournal>, AttestError>(AttestError::AbiDecode),
        },
{
    let ghost pv = ps@.map_values(|p: JournalParts| p@);
    let mut out: Vec<VerifierJournal> = Vec::new();
    let mut rest = ps;
    let ghost n = pv.len();
    proof {
        assert(pv.take(0) =~= Seq::<JournalPartsView>::empty());
        assert(journals_view(out@) =~= Seq::<JournalView>::empty());
    }
    while rest.len() > 0
        invariant
            pv == ps@.map_values(|p: JournalParts| p@),
            pv.len() == n,
            out@.len() + rest@.len() == n,
            forall|k: int| 0 <= k < rest@.len() ==> #[trigger] rest@[k]@ == pv[out@.len() + k],
            journals_of_parts(pv.take(out@.len() as int)) == Some(journals_view(out@)),
        decreases rest.len(),
    {
        let i = out.len();
        let ghost before = rest@;
        let p = rest.remove(0);
        proof {
            assert(p@ == pv[i as int]);
            assert(pv.take(i + 1).drop_last() =~= pv.take(i as int));
            assert(pv.take(i + 1).last() == pv[i as int]);
            assert forall|k: int| 0 <= k < rest@.len() implies #[trigger] rest@[k]@ == pv[i + 1 + k] by {
                assert(rest@[k] == before[k + 1]);
            }
        }
        match journal_from_parts(p) {
            Ok(j) => {
                let ghost prev = out@;
                out.push(j);
                proof {
                    assert(journals_view(out@) =~= journals_view(prev).push(j@));
                }
            },
            Err(e) => {
                proof {
                    lemma_journals_of_parts_none(pv, i + 1);
                }
                return Err(e);
            },
        }
    }
    proof {
        assert(pv.take(n as int) =~= pv);
    }
    Ok(out)
}

impl VerifierInput {
    /// ABI encoding of the input.
    pub fn encode(&self) -> (r: Vec<u8>)
        ensures
            r@ == abi_input(self.trusted_certs_prefix_len, self.attestation_report@),
    {
        encode_input(self.trusted_certs_prefix_len, &self.attestation_report)
    }

    /// Decodes an input from ABI bytes.
    pub fn decode(buf: &[u8]) -> (r: Result<VerifierInput, AttestError>)
        ensures
            match abi_input_decoded(buf@) {
                Some((p, v)) => r matches Ok(x) && x.trusted_certs_prefix_len == p && x.attestation_report@ == v,
                None => r == Err::<VerifierInput, AttestError>(AttestError::AbiDecode),
            },
    {
        match decode_input(buf) {
            Some((p, v)) => Ok(VerifierInput { trusted_certs_prefix_len: p, attestation_report: v }),
            None => Err(AttestError::AbiDecode),
        }
    }
}

impl VerifierJournal {
    /// ABI encoding of the journal.
    pub fn encode(&self) -> (r: Vec<u8>)
        ensures
            r@ == abi_journal(self@),
    {
        encode_journal(self)
    }

    /// SHA-256 of the ABI encoding: what a proof of this journal commits to.
    pub fn digest(&self) -> (r: [u8; 32])
        ensures
            r@ == crate::crypto::sha256_of(abi_journal(self@)),
    {
        let e = self.encode();
        crate::crypto::sha256(e.as_slice())
    }

    /// Decodes a journal from ABI bytes.
    pub fn decode(buf: &[u8]) -> (r: Result<VerifierJournal, AttestError>)
        ensures
            match abi_journal_decoded(buf@) {
                Some(p) => match journal_of_parts(p) {
                    Some(j) => r matches Ok(x) && x@ == j,
                    None => r == Err::<VerifierJournal, AttestError>(AttestError::AbiDecode),
                },
                None => r == Err::<VerifierJournal, AttestError>(AttestError::AbiDecode),
            },
    {
        match decode_journal(buf) {
            Some(p) => journal_from_parts(p),
            None => Err(AttestError::AbiDecode),
        }
    }
}

impl BatchVerifierInput {
    /// ABI encoding of the batch input.
    pub fn encode(&self) -> (r: Vec<u8>)
        ensures
            r@ == abi_batch(self.verifier_vk@, journals_view(self.outputs@)),
    {
        encode_batch(&self.verifier_vk, &self.outputs)
    }

    /// Decodes a batch input from ABI bytes.
    pub fn decode(buf: &[u8]) -> (r: Result<BatchVerifierInput, AttestError>)
        ensures
            match abi_batch_decoded(buf@) {
                Some((vk, ps)) => match journals_of_parts(ps) {
                    Some(js) => r matches Ok(x) && x.verifier_vk@ == vk && journals_view(x.outputs@) == js,
                    None => r == Err::<BatchVerifierInput, AttestError>(AttestError::AbiDecode),
                },
                None => r == Err::<BatchVerifierInput, AttestError>(AttestError::AbiDecode),
            },
    {
        match decode_batch(buf) {
            Some((vk, ps)) => {
                let outputs = journals_from_parts(ps)?;
                Ok(BatchVerifierInput { verifier_vk: vk, outputs })
            },
            None => Err(AttestError::AbiDecode),
        }
    }
}

impl BatchVerifierJournal {
    /// ABI encoding of the batch journal; its layout is that of the input.
    pub fn encode(&self) -> (r: Vec<u8>)
        ensures
            r@ == abi_batch(self.verifier_vk@, journals_view(self.outputs@)),
    {
        encode_batch(&self.verifier_vk, &self.outputs)
    }

    /// Decodes a batch journal from ABI bytes.
    pub fn decode(buf: &[u8]) -> (r: Result<BatchVerifierJournal, AttestError>)
        ensures
            match abi_batch_decoded(buf@) {
                Some((vk, ps)) => match journals_of_parts(ps) {
                    Some(js) => r matches Ok(x) && x.verifier_vk@ == vk && journals_view(x.outputs@) == js,
                    None => r == Err::<BatchVerifierJournal, AttestError>(AttestError::AbiDecode),
                },
                None => r == Err::<BatchVerifierJournal, AttestError>(AttestError::AbiDecode),
            },
    {
        match decode_batch(buf) {
            Some((vk, ps)) => {
                let outputs = journals_from_parts(ps)?;
                Ok(BatchVerifierJournal { verifier_vk: vk, outputs })
            },
            None => Err(AttestError::AbiDecode),
        }
    }
}

} // verus!
