//! X.509 certificates and chains ordered root to leaf, with the inductive
//! path digest that binds each certificate to all of its ancestors.

use vstd::prelude::*;
use x509_parser::prelude::FromDer;

use crate::crypto::{
    compatible, der_sig_to_raw, ec_decode_sig, scalar_len, sha256, sha256_of, signature_check,
    verify_signature, KeyAlgo, PubKey, SigAlgo,
};
use crate::cbor::slice_to_vec;
use crate::error::AttestError;

verus! {

/// The fields of a DER certificate that the chain logic reads, as the
/// X.509 parser hands them out.
pub struct X509Fields {
    /// Bytes left over after the certificate.
    pub rest_len: usize,
    pub tbs: Vec<u8>,
    pub sig_oid: Vec<u8>,
    pub sig: Vec<u8>,
    pub key_oid: Vec<u8>,
    pub key_param_oid: Option<Vec<u8>>,
    pub key: Vec<u8>,
    pub not_before: i64,
    pub not_after: i64,
}

pub struct X509FieldsView {
    pub rest_len: nat,
    pub tbs: Seq<u8>,
    pub sig_oid: Seq<u8>,
    pub sig: Seq<u8>,
    pub key_oid: Seq<u8>,
    pub key_param_oid: Option<Seq<u8>>,
    pub key: Seq<u8>,
    pub not_before: int,
    pub not_after: int,
}

impl View for X509Fields {
    type V = X509FieldsView;

    open spec fn view(&self) -> X509FieldsView {
        X509FieldsView {
            rest_len: self.rest_len as nat,
            tbs: self.tbs@,
            sig_oid: self.sig_oid@,
            sig: self.sig@,
            key_oid: self.key_oid@,
            key_param_oid: match self.key_param_oid {
                Some(p) => Some(p@),
                None => None,
            },
            key: self.key@,
            not_before: self.not_before as int,
            not_after: self.not_after as int,
        }
    }
}

pub uninterp spec fn x509_of(der: Seq<u8>) -> Option<X509FieldsView>;

/// Relies on x509_parser's X509Certificate::from_der: `None` when the bytes
/// do not start with a certificate, else the certificate's fields and the
/// length of what follows it.
#[verifier::external_body]
fn parse_x509(der: &[u8]) -> (r: Option<X509Fields>)
    ensures
        match r {
            Some(f) => x509_of(der@) == Some(f@),
            None => x509_of(der@) is None,
        },
{
    let (rest, c) = x509_parser::certificate::X509Certificate::from_der(der).ok()?;
    let k = c.public_key();
    Some(X509Fields {
        rest_len: rest.len(),
        tbs: c.tbs_certificate.as_ref().to_vec(),
        sig_oid: c.signature_algorithm.algorithm.as_bytes().to_vec(),
        sig: c.signature_value.data.to_vec(),
        key_oid: k.algorithm.algorithm.as_bytes().to_vec(),
        key_param_oid: k.algorithm.parameters.as_ref().and_then(|p| p.as_oid().ok()).map(|o| o.as_bytes().to_vec()),
        key: k.subject_public_key.data.to_vec(),
        not_before: c.validity().not_before.timestamp(),
        not_after: c.validity().not_after.timestamp(),
    })
}

/// ecdsa-with-SHA256 and ecdsa-with-SHA384, by the content bytes of their
/// object identifiers.
pub open spec fn sig_algo_of_oid(o: Seq<u8>) -> Option<SigAlgo> {
    if o == seq![0x2Au8, 0x86, 0x48, 0xCE, 0x3D, 0x04, 0x03, 0x02] {
        Some(SigAlgo::EcdsaSha256)
    } else if o == seq![0x2Au8, 0x86, 0x48, 0xCE, 0x3D, 0x04, 0x03, 0x03] {
        Some(SigAlgo::EcdsaSha384)
    } else {
        None
    }
}

/// An id-ecPublicKey key on prime256v1 or secp384r1.
pub open spec fn key_algo_of_oids(o: Seq<u8>, param: Option<Seq<u8>>) -> Option<KeyAlgo> {
    if o != seq![0x2Au8, 0x86, 0x48, 0xCE, 0x3D, 0x02, 0x01] {
        None
    } else {
        match param {
            Some(p) => if p == seq![0x2Au8, 0x86, 0x48, 0xCE, 0x3D, 0x03, 0x01, 0x07] {
                Some(KeyAlgo::EcdsaP256)
            } else if p == seq![0x2Bu8, 0x81, 0x04, 0x00, 0x22] {
                Some(KeyAlgo::EcdsaP384)
            } else {
                None
            },
            None => None,
        }
    }
}

fn sig_algo_from_oid(o: &[u8]) -> (r: Option<SigAlgo>)
    ensures
        r == sig_algo_of_oid(o@),
{
    if o.len() == 8 && o[0] == 0x2A && o[1] == 0x86 && o[2] == 0x48 && o[3] == 0xCE && o[4] == 0x3D
        && o[5] == 0x04 && o[6] == 0x03 {
        if o[7] == 0x02 {
            assert(o@ =~= seq![0x2Au8, 0x86, 0x48, 0xCE, 0x3D, 0x04, 0x03, 0x02]);
            return Some(SigAlgo::EcdsaSha256);
        } else if o[7] == 0x03 {
            assert(o@ =~= seq![0x2Au8, 0x86, 0x48, 0xCE, 0x3D, 0x04, 0x03, 0x03]);
            return Some(SigAlgo::EcdsaSha384);
        }
    }
    proof {
        if o@ == seq![0x2Au8, 0x86, 0x48, 0xCE, 0x3D, 0x04, 0x03, 0x02] {
            assert(o@[7] == 0x02);
        }
        if o@ == seq![0x2Au8, 0x86, 0x48, 0xCE, 0x3D, 0x04, 0x03, 0x03] {
            assert(o@[7] == 0x03);
        }
    }
    None
}

fn key_algo_from_oids(o: &[u8], param: &Option<Vec<u8>>) -> (r: Option<KeyAlgo>)
    ensures
        r == key_algo_of_oids(
            o@,
            match param {
                Some(p) => Some(p@),
                None => None,
            },
        ),
{
    if !(o.len() == 7 && o[0] == 0x2A && o[1] == 0x86 && o[2] == 0x48 && o[3] == 0xCE && o[4]
        == 0x3D && o[5] == 0x02 && o[6] == 0x01) {
        proof {
            if o@ == seq![0x2Au8, 0x86, 0x48, 0xCE, 0x3D, 0x02, 0x01] {
                assert(o@[6] == 0x01);
            }
        }
        return None;
    }
    assert(o@ =~= seq![0x2Au8, 0x86, 0x48, 0xCE, 0x3D, 0x02, 0x01]);
    match param {
        None => None,
        Some(p) => {
            if p.len() == 8 && p[0] == 0x2A && p[1] == 0x86 && p[2] == 0x48 && p[3] == 0xCE && p[4]
                == 0x3D && p[5] == 0x03 && p[6] == 0x01 && p[7] == 0x07 {
                assert(p@ =~= seq![0x2Au8, 0x86, 0x48, 0xCE, 0x3D, 0x03, 0x01, 0x07]);
                return Some(KeyAlgo::EcdsaP256);
            }
            if p.len() == 5 && p[0] == 0x2B && p[1] == 0x81 && p[2] == 0x04 && p[3] == 0x00 && p[4]
                == 0x22 {
                assert(p@ =~= seq![0x2Bu8, 0x81, 0x04, 0x00, 0x22]);
                return Some(KeyAlgo::EcdsaP384);
            }
            proof {
                if p@ == seq![0x2Au8, 0x86, 0x48, 0xCE, 0x3D, 0x03, 0x01, 0x07] {
                    assert(p@[7] == 0x07);
                }
                if p@ == seq![0x2Bu8, 0x81, 0x04, 0x00, 0x22] {
                    assert(p@[4] == 0x22);
                }
            }
            None
        },
    }
}

/// A parsed certificate together with its DER bytes.
#[derive(Debug, Clone)]
pub struct Cert {
    pub bytes: Vec<u8>,
    pub tbs: Vec<u8>,
    pub sig_algo: SigAlgo,
    pub signature: Vec<u8>,
    pub pubkey: PubKey,
    /// Start of the validity window, seconds since the Unix epoch.
    pub not_before: i64,
    /// End of the validity window, seconds since the Unix epoch.
    pub not_after: i64,
}

pub struct CertView {
    pub bytes: Seq<u8>,
    pub tbs: Seq<u8>,
    pub sig_algo: SigAlgo,
    pub signature: Seq<u8>,
    pub key_algo: KeyAlgo,
    pub key: Seq<u8>,
    pub not_before: int,
    pub not_after: int,
}

impl View for Cert {
    type V = CertView;

    open spec fn view(&self) -> CertView {
        CertView {
            bytes: self.bytes@,
            tbs: self.tbs@,
            sig_algo: self.sig_algo,
            signature: self.signature@,
            key_algo: self.pubkey.algo,
            key: self.pubkey.val@,
            not_before: self.not_before as int,
            not_after: self.not_after as int,
        }
    }
}

/// What parsing `der` as a certificate gives: it must be one whole
/// certificate with a supported signature algorithm and key.
pub open spec fn cert_of(der: Seq<u8>) -> Result<CertView, AttestError> {
    match x509_of(der) {
        None => Err(AttestError::CertParse),
        Some(f) => if f.rest_len != 0 {
            Err(AttestError::CertParse)
        } else {
            match (sig_algo_of_oid(f.sig_oid), key_algo_of_oids(f.key_oid, f.key_param_oid)) {
                (Some(s), Some(k)) => Ok(
                    CertView {
                        bytes: der,
                        tbs: f.tbs,
                        sig_algo: s,
                        signature: f.sig,
                        key_algo: k,
                        key: f.key,
                        not_before: f.not_before,
                        not_after: f.not_after,
                    },
                ),
                _ => Err(AttestError::UnsupportedAlgorithm),
            }
        },
    }
}

/// Outcome of checking `subject`'s signature with `issuer`'s key.
pub open spec fn link_check(subject: CertView, issuer: CertView) -> Result<bool, AttestError> {
    if !compatible(subject.sig_algo, issuer.key_algo) {
        Err(AttestError::UnsupportedAlgorithm)
    } else {
        match der_sig_to_raw(subject.signature, scalar_len(issuer.key_algo)) {
            None => Err(AttestError::MalformedSignature),
            Some(raw) => signature_check(issuer.key_algo, issuer.key, subject.sig_algo, raw, subject.tbs),
        }
    }
}

impl Cert {
    /// Parses one DER certificate; trailing bytes are refused.
    pub fn parse_der(bytes: &[u8]) -> (r: Result<Cert, AttestError>)
        ensures
            match r {
                Ok(c) => cert_of(bytes@) == Ok::<CertView, AttestError>(c@),
                Err(e) => cert_of(bytes@) == Err::<CertView, AttestError>(e),
            },
    {
        let f = match parse_x509(bytes) {
            None => return Err(AttestError::CertParse),
            Some(f) => f,
        };
        if f.rest_len != 0 {
            return Err(AttestError::CertParse);
        }
        let s = sig_algo_from_oid(f.sig_oid.as_slice());
        let k = key_algo_from_oids(f.key_oid.as_slice(), &f.key_param_oid);
        match (s, k) {
            (Some(s), Some(k)) => {
                let b = slice_to_vec(bytes, 0, bytes.len());
                assert(b@ =~= bytes@);
                Ok(
                    Cert {
                        bytes: b,
                        tbs: f.tbs,
                        sig_algo: s,
                        signature: f.sig,
                        pubkey: PubKey { algo: k, val: f.key },
                        not_before: f.not_before,
                        not_after: f.not_after,
                    },
                )
            },
            _ => Err(AttestError::UnsupportedAlgorithm),
        }
    }

    /// The certificate's public key.
    pub fn pubkey(&self) -> (r: PubKey)
        ensures
            r.algo == self.pubkey.algo,
            r.val@ == self.pubkey.val@,
    {
        PubKey { algo: self.pubkey.algo, val: self.pubkey.val.clone() }
    }

    /// SHA-256 of the certificate's DER bytes.
    pub fn digest(&self) -> (r: [u8; 32])
        ensures
            r@ == sha256_of(self.bytes@),
    {
        sha256(self.bytes.as_slice())
    }

    /// Whether `t` (seconds since the Unix epoch) lies in the validity window.
    pub fn check_valid(&self, t: u64) -> (r: bool)
        ensures
            r == (self.not_before <= t && t <= self.not_after),
    {
        self.not_before as i128 <= t as i128 && t as i128 <= self.not_after as i128
    }

    /// Checks this certificate's signature with `issuer`'s key, or with its
    /// own key when there is no issuer.
    pub fn verify(&self, issuer: Option<&Cert>) -> (r: Result<bool, AttestError>)
        ensures
            r == link_check(
                self@,
                match issuer {
                    Some(i) => i@,
                    None => self@,
                },
            ),
    {
        let iss = match issuer {
            Some(i) => i,
            None => self,
        };
        let ok = match (self.sig_algo, iss.pubkey.algo) {
            (SigAlgo::EcdsaSha256, KeyAlgo::EcdsaP256) => true,
            (SigAlgo::EcdsaSha384, KeyAlgo::EcdsaP384) => true,
            _ => false,
        };
        if !ok {
            return Err(AttestError::UnsupportedAlgorithm);
        }
        let n: usize = match iss.pubkey.algo {
            KeyAlgo::EcdsaP256 => 32,
            KeyAlgo::EcdsaP384 => 48,
        };
        let raw = match ec_decode_sig(self.signature.as_slice(), n) {
            None => return Err(AttestError::MalformedSignature),
            Some(raw) => raw,
        };
        verify_signature(&iss.pubkey, self.sig_algo, raw.as_slice(), self.tbs.as_slice())
    }
}

} // verus!
