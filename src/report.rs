//! An attestation report: the COSE envelope and the document it carries.

use vstd::prelude::*;

use crate::cert::CertView;
use crate::chain::{certs_of, chain_valid_at, chain_verify, CertChain};
use crate::cose::{cose_of, cose_verify, CoseSign1, CoseView};
use crate::crypto::SigAlgo;
use crate::cbor::head;
use crate::doc::{
    doc_of, find_value, lemma_doc_timestamp_field, timestamp_key, uint_value, vecs_view,
    AttestationDocument, DocView,
};
use crate::error::AttestError;

verus! {

pub struct ReportView {
    pub doc: DocView,
    pub cose: CoseView,
}

/// The report encoded by `b`.
pub open spec fn report_of(b: Seq<u8>) -> Result<ReportView, AttestError> {
    match cose_of(b) {
        None => Err(AttestError::CoseParse),
        Some(c) => match doc_of(c.payload) {
            None => Err(AttestError::DocParse),
            Some(d) => Ok(ReportView { doc: d, cose: c }),
        },
    }
}

/// The DER certificates of the document's chain: the bundle, root first,
/// then the leaf.
pub open spec fn chain_ders(d: DocView) -> Seq<Seq<u8>> {
    d.cabundle.push(d.certificate)
}

/// Outcome of authenticating a report whose first `n` certificates are
/// trusted, at time `t` in seconds: the chain's signatures, its time
/// windows, then the envelope's ES384 signature under the leaf key.
pub open spec fn authenticate_spec(r: ReportView, n: nat, t: int) -> Result<Seq<CertView>, AttestError> {
    match certs_of(chain_ders(r.doc)) {
        Err(e) => Err(e),
        Ok(cs) => match chain_verify(cs, n) {
            Err(e) => Err(e),
            Ok(false) => Err(AttestError::ChainNotTrusted),
            Ok(true) => match chain_valid_at(cs, t) {
                Err(e) => Err(e),
                Ok(()) => match cose_verify(r.cose, SigAlgo::EcdsaSha384, cs.last().key_algo, cs.last().key) {
                    Err(e) => Err(e),
                    Ok(false) => Err(AttestError::CoseSignatureInvalid),
                    Ok(true) => Ok(cs),
                },
            },
        },
    }
}

/// A parsed attestation report.
#[derive(Debug)]
pub struct AttestationReport {
    pub doc: AttestationDocument,
    pub cose_sign: CoseSign1,
}

impl View for AttestationReport {
    type V = ReportView;

    open spec fn view(&self) -> ReportView {
        ReportView { doc: self.doc@, cose: self.cose_sign@ }
    }
}

impl AttestationReport {
    /// Decodes the envelope, then the document in its payload.
    pub fn parse(document_data: &[u8]) -> (r: Result<AttestationReport, AttestError>)
        ensures
            match report_of(document_data@) {
                Ok(v) => r matches Ok(x) && x@ == v,
                Err(e) => r == Err::<AttestationReport, AttestError>(e),
            },
    {
        let cose_sign = CoseSign1::from_bytes(document_data)?;
        let doc = AttestationDocument::parse(cose_sign.payload.as_slice())?;
        Ok(AttestationReport { doc, cose_sign })
    }

    /// The document.
    pub fn doc(&self) -> (r: &AttestationDocument)
        ensures
            r@ == self@.doc,
    {
        &self.doc
    }

    /// Parses the certificate chain: the bundle, root first, then the leaf.
    pub fn cert_chain(&self) -> (r: Result<CertChain, AttestError>)
        ensures
            match r {
                Ok(c) => c.wf() && certs_of(chain_ders(self@.doc)) == Ok::<Seq<CertView>, AttestError>(c@),
                Err(e) => certs_of(chain_ders(self@.doc)) == Err::<Seq<CertView>, AttestError>(e),
            },
    {
        let mut ders: Vec<Vec<u8>> = Vec::new();
        let mut i: usize = 0;
        while i < self.doc.cabundle.len()
            invariant
                i <= self.doc.cabundle.len(),
                vecs_view(ders@) == vecs_view(self.doc.cabundle@).take(i as int),
            decreases self.doc.cabundle.len() - i,
        {
            let ghost prev = ders@;
            ders.push(copy_vec(&self.doc.cabundle[i]));
            proof {
                assert(vecs_view(ders@) =~= vecs_view(prev).push(self.doc.cabundle@[i as int]@));
                assert(vecs_view(self.doc.cabundle@).take(i + 1) =~= vecs_view(self.doc.cabundle@).take(i as int).push(self.doc.cabundle@[i as int]@));
            }
            i = i + 1;
        }
        let ghost prev = ders@;
        ders.push(copy_vec(&self.doc.certificate));
        proof {
            assert(vecs_view(self.doc.cabundle@).take(i as int) =~= vecs_view(self.doc.cabundle@));
            assert(vecs_view(ders@) =~= vecs_view(prev).push(self.doc.certificate@));
            assert(ders@.map_values(|d: Vec<u8>| d@) =~= chain_ders(self@.doc));
        }
        CertChain::parse(ders.as_slice())
    }

    /// Authenticates the report, taking the first `trusted_certs_len`
    /// certificates as trusted and `timestamp` (seconds) as the time of
    /// verification; returns the chain, whose digests callers need.
    pub fn authenticate(&self, trusted_certs_len: usize, timestamp: u64) -> (r: Result<CertChain, AttestError>)
        ensures
            match authenticate_spec(self@, trusted_certs_len as nat, timestamp as int) {
                Ok(cs) => r matches Ok(c) && c@ == cs && c.wf(),
                Err(e) => r matches Err(x) && x == e,
            },
    {
        let cert_chain = self.cert_chain()?;
        match cert_chain.verify_chain(trusted_certs_len) {
            Ok(true) => {},
            Ok(false) => return Err(AttestError::ChainNotTrusted),
            Err(e) => return Err(e),
        }
        cert_chain.check_valid(timestamp)?;
        let pubkey = cert_chain.leaf_pubkey();
        let ok = self.cose_sign.verify_signature(SigAlgo::EcdsaSha384, &pubkey)?;
        if !ok {
            return Err(AttestError::CoseSignatureInvalid);
        }
        Ok(cert_chain)
    }
}

fn copy_vec(v: &Vec<u8>) -> (r: Vec<u8>)
    ensures
        r@ == v@,
{
    let r = crate::cbor::slice_to_vec(v.as_slice(), 0, v.len());
    assert(r@ =~= v@);
    r
}


/// A report that parses carries as its document's timestamp the unsigned
/// integer stored under "timestamp" in the map of the envelope's payload.
pub proof fn lemma_report_timestamp(b: Seq<u8>)
    requires
        report_of(b) is Ok,
    ensures
        ({
            let p = (cose_of(b)->Some_0).payload;
            head(p, 0) matches Some((m, n, start)) && find_value(p, start, n, timestamp_key()) matches Some(q)
                && uint_value(p, q) matches Some((t, e)) && t == (report_of(b)->Ok_0).doc.timestamp
        }),
{
    lemma_doc_timestamp_field((cose_of(b)->Some_0).payload);
}

} // verus!
