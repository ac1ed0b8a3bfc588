//! The COSE_Sign1 envelope of an attestation report.

use vstd::prelude::*;

use crate::cbor::{
    bstr_at, enc_head, head, lemma_enc_head, lemma_head_frame, lemma_skip_frame, push_bytes,
    push_head, read_bstr, read_head, skip, skip_items, slice_to_vec,
};
use crate::crypto::{signature_check, verify_signature, KeyAlgo, PubKey, SigAlgo};
use crate::error::AttestError;

verus! {

/// COSE algorithm identifiers of the ECDSA variants.
#[derive(Debug, Clone, Copy, PartialEq, Eq, Structural)]
pub enum SignatureAlgorithm {
    /// ECDSA with SHA-256.
    ES256,
    /// ECDSA with SHA-384.
    ES384,
    /// ECDSA with SHA-512.
    ES512,
}

impl SignatureAlgorithm {
    /// The identifier as it stands in a protected header.
    pub fn value(&self) -> (r: i8)
        ensures
            *self == SignatureAlgorithm::ES256 ==> r == -7,
            *self == SignatureAlgorithm::ES384 ==> r == -35,
            *self == SignatureAlgorithm::ES512 ==> r == -36,
    {
        match self {
            SignatureAlgorithm::ES256 => -7,
            SignatureAlgorithm::ES384 => -35,
            SignatureAlgorithm::ES512 => -36,
        }
    }
}

/// The COSE identifier of a signature algorithm.
pub open spec fn alg_value(a: SigAlgo) -> int {
    match a {
        SigAlgo::EcdsaSha256 => -7,
        SigAlgo::EcdsaSha384 => -35,
    }
}

/// The COSE identifier of a signature algorithm.
pub fn sig_algo_val(alg: SigAlgo) -> (r: i8)
    ensures
        r == alg_value(alg),
{
    match alg {
        SigAlgo::EcdsaSha256 => -7,
        SigAlgo::EcdsaSha384 => -35,
    }
}

/// A COSE_Sign1 structure: the protected header bytes, the encoded
/// unprotected header map, the payload and the signature.
#[derive(Debug)]
pub struct CoseSign1 {
    pub protected: Vec<u8>,
    pub unprotected: Vec<u8>,
    pub payload: Vec<u8>,
    pub signature: Vec<u8>,
}

pub struct CoseView {
    pub protected: Seq<u8>,
    pub unprotected: Seq<u8>,
    pub payload: Seq<u8>,
    pub signature: Seq<u8>,
}

impl View for CoseSign1 {
    type V = CoseView;

    open spec fn view(&self) -> CoseView {
        CoseView {
            protected: self.protected@,
            unprotected: self.unprotected@,
            payload: self.payload@,
            signature: self.signature@,
        }
    }
}

/// Where the four-element array starts: after tag 18, or at once when the
/// envelope is untagged. Any other tag is refused.
pub open spec fn envelope_start(b: Seq<u8>) -> Option<nat> {
    match head(b, 0) {
        None => None,
        Some((m, a, nx)) => if m == 6 {
            if a == 18 {
                Some(nx)
            } else {
                None
            }
        } else {
            Some(0)
        },
    }
}

/// `h` is exactly one encoded map.
pub open spec fn is_map_item(h: Seq<u8>) -> bool {
    &&& head(h, 0) matches Some((m, a, nx)) && m == 5
    &&& skip(h, 0, 1) == Some(h.len())
}

/// The COSE_Sign1 structure encoded by `b`, which must hold nothing else.
pub open spec fn cose_of(b: Seq<u8>) -> Option<CoseView> {
    match envelope_start(b) {
        None => None,
        Some(at0) => match head(b, at0) {
            None => None,
            Some((m, a, at1)) => if m != 4 || a != 4 {
                None
            } else {
                match bstr_at(b, at1) {
                    None => None,
                    Some((prot, at2)) => match head(b, at2) {
                        None => None,
                        Some((m2, a2, n2)) => if m2 != 5 {
                            None
                        } else {
                            match skip(b, at2, 1) {
                                None => None,
                                Some(at3) => match bstr_at(b, at3) {
                                    None => None,
                                    Some((pay, at4)) => match bstr_at(b, at4) {
                                        None => None,
                                        Some((sig, at5)) => if at5 == b.len() && is_map_item(prot) {
                                            Some(
                                                CoseView {
                                                    protected: prot,
                                                    unprotected: b.subrange(at2 as int, at3 as int),
                                                    payload: pay,
                                                    signature: sig,
                                                },
                                            )
                                        } else {
                                            None
                                        },
                                    },
                                },
                            }
                        },
                    },
                }
            },
        },
    }
}

/// What the protected header says of the algorithm (key 1).
#[derive(Debug, Clone, Copy, PartialEq, Eq, Structural)]
pub enum AlgEntry {
    Missing,
    NotInt,
    Int(i128),
}

/// The integer item at `pos`, if it is one.
pub open spec fn int_at(h: Seq<u8>, pos: nat) -> Option<i128> {
    match head(h, pos) {
        Some((m, a, nx)) => if m == 0 {
            Some(a as i128)
        } else if m == 1 {
            Some((-1 - a) as i128)
        } else {
            None
        },
        None => None,
    }
}

/// Looks for key 1 among the `n` entries starting at `pos`; the first such
/// entry counts. `None` when the entries are malformed.
pub open spec fn find_alg(h: Seq<u8>, pos: nat, n: nat) -> Option<AlgEntry>
    decreases n,
{
    if n == 0 {
        Some(AlgEntry::Missing)
    } else {
        match head(h, pos) {
            None => None,
            Some((m, a, nx)) => if m == 0 && a == 1 {
                match int_at(h, nx) {
                    Some(v) => Some(AlgEntry::Int(v)),
                    None => Some(AlgEntry::NotInt),
                }
            } else {
                match skip(h, pos, 2) {
                    None => None,
                    Some(q) => find_alg(h, q, (n - 1) as nat),
                }
            },
        }
    }
}

/// The algorithm entry of a protected header map.
pub open spec fn protected_alg(h: Seq<u8>) -> Option<AlgEntry> {
    match head(h, 0) {
        Some((m, n, at1)) => if m == 5 {
            find_alg(h, at1, n)
        } else {
            None
        },
        None => None,
    }
}

/// The text "Signature1".
pub open spec fn signature1_text() -> Seq<u8> {
    seq![0x53u8, 0x69, 0x67, 0x6e, 0x61, 0x74, 0x75, 0x72, 0x65, 0x31]
}

/// The Sig_structure of a COSE_Sign1: the array ["Signature1", protected,
/// empty external data, payload] in CBOR.
pub open spec fn sig_structure(protected: Seq<u8>, payload: Seq<u8>) -> Seq<u8> {
    seq![0x84u8] + enc_head(3, 10) + signature1_text() + enc_head(2, protected.len()) + protected
        + enc_head(2, 0) + enc_head(2, payload.len()) + payload
}

/// Outcome of checking the envelope's signature with a key.
pub open spec fn cose_verify(c: CoseView, algo: SigAlgo, key_algo: KeyAlgo, key: Seq<u8>) -> Result<bool, AttestError> {
    match protected_alg(c.protected) {
        Some(AlgEntry::Int(v)) => if v != alg_value(algo) {
            Ok(false)
        } else {
            signature_check(key_algo, key, algo, c.signature, sig_structure(c.protected, c.payload))
        },
        _ => Err(AttestError::CoseParse),
    }
}

fn read_int(h: &[u8], pos: usize) -> (r: Option<i128>)
    ensures
        r == int_at(h@, pos as nat),
{
    match read_head(h, pos) {
        None => None,
        Some(hd) => if hd.major == 0 {
            Some(hd.arg as i128)
        } else if hd.major == 1 {
            Some(-1 - hd.arg as i128)
        } else {
            None
        },
    }
}

fn protected_alg_exec(h: &[u8]) -> (r: Option<AlgEntry>)
    ensures
        r == protected_alg(h@),
{
    let hd = match read_head(h, 0) {
        None => return None,
        Some(hd) => hd,
    };
    if hd.major != 5 {
        return None;
    }
    let mut pos = hd.next;
    let mut n: u64 = hd.arg;
    while n > 0
        invariant
            protected_alg(h@) == find_alg(h@, hd.next as nat, hd.arg as nat),
            find_alg(h@, hd.next as nat, hd.arg as nat) == find_alg(h@, pos as nat, n as nat),
        decreases n,
    {
        let k = match read_head(h, pos) {
            None => return None,
            Some(k) => k,
        };
        if k.major == 0 && k.arg == 1 {
            return match read_int(h, k.next) {
                Some(v) => Some(AlgEntry::Int(v)),
                None => Some(AlgEntry::NotInt),
            };
        }
        pos = match skip_items(h, pos, 2) {
            None => return None,
            Some(q) => q,
        };
        n = n - 1;
    }
    Some(AlgEntry::Missing)
}

/// Builds the Sig_structure bytes that the envelope's signature covers.
pub fn sig_structure_bytes(protected: &[u8], payload: &[u8]) -> (r: Vec<u8>)
    ensures
        r@ == sig_structure(protected@, payload@),
{
    let mut v: Vec<u8> = Vec::new();
    v.push(0x84u8);
    push_head(&mut v, 3, 10);
    v.push(0x53u8);
    v.push(0x69u8);
    v.push(0x67u8);
    v.push(0x6eu8);
    v.push(0x61u8);
    v.push(0x74u8);
    v.push(0x75u8);
    v.push(0x72u8);
    v.push(0x65u8);
    v.push(0x31u8);
    push_head(&mut v, 2, protected.len() as u64);
    push_bytes(&mut v, protected);
    push_head(&mut v, 2, 0);
    push_head(&mut v, 2, payload.len() as u64);
    push_bytes(&mut v, payload);
    assert(v@ =~= sig_structure(protected@, payload@));
    v
}

/// The untagged encoding of a COSE_Sign1: the four-element array of the
/// protected bytes, the unprotected map as it stands, the payload and the
/// signature.
pub open spec fn cose_bytes(c: CoseView) -> Seq<u8> {
    enc_head(4, 4) + enc_head(2, c.protected.len()) + c.protected + c.unprotected + enc_head(
        2,
        c.payload.len(),
    ) + c.payload + enc_head(2, c.signature.len()) + c.signature
}

impl CoseSign1 {
    /// Encodes the structure, untagged.
    pub fn to_bytes(&self) -> (r: Vec<u8>)
        ensures
            r@ == cose_bytes(self@),
    {
        let mut v: Vec<u8> = Vec::new();
        push_head(&mut v, 4, 4);
        push_head(&mut v, 2, self.protected.len() as u64);
        push_bytes(&mut v, self.protected.as_slice());
        push_bytes(&mut v, self.unprotected.as_slice());
        push_head(&mut v, 2, self.payload.len() as u64);
        push_bytes(&mut v, self.payload.as_slice());
        push_head(&mut v, 2, self.signature.len() as u64);
        push_bytes(&mut v, self.signature.as_slice());
        assert(v@ =~= cose_bytes(self@));
        v
    }

    /// Decodes a COSE_Sign1 envelope, tagged 18 or untagged. The protected
    /// header must itself decode as a map.
    pub fn from_bytes(bytes: &[u8]) -> (r: Result<CoseSign1, AttestError>)
        ensures
            match cose_of(bytes@) {
                Some(c) => r matches Ok(s) && s@ == c,
                None => r == Err::<CoseSign1, AttestError>(AttestError::CoseParse),
            },
    {
        let h0 = match read_head(bytes, 0) {
            None => return Err(AttestError::CoseParse),
            Some(h) => h,
        };
        let at0: usize = if h0.major == 6 {
            if h0.arg == 18 {
                h0.next
            } else {
                return Err(AttestError::CoseParse);
            }
        } else {
            0
        };
        let h1 = match read_head(bytes, at0) {
            None => return Err(AttestError::CoseParse),
            Some(h) => h,
        };
        if h1.major != 4 || h1.arg != 4 {
            return Err(AttestError::CoseParse);
        }
        let (protected, at2) = match read_bstr(bytes, h1.next) {
            None => return Err(AttestError::CoseParse),
            Some(x) => x,
        };
        let h2 = match read_head(bytes, at2) {
            None => return Err(AttestError::CoseParse),
            Some(h) => h,
        };
        if h2.major != 5 {
            return Err(AttestError::CoseParse);
        }
        let at3 = match skip_items(bytes, at2, 1) {
            None => return Err(AttestError::CoseParse),
            Some(p) => p,
        };
        let (payload, at4) = match read_bstr(bytes, at3) {
            None => return Err(AttestError::CoseParse),
            Some(x) => x,
        };
        let (signature, at5) = match read_bstr(bytes, at4) {
            None => return Err(AttestError::CoseParse),
            Some(x) => x,
        };
        if at5 != bytes.len() {
            return Err(AttestError::CoseParse);
        }
        let ph = match read_head(protected.as_slice(), 0) {
            None => return Err(AttestError::CoseParse),
            Some(h) => h,
        };
        if ph.major != 5 {
            return Err(AttestError::CoseParse);
        }
        match skip_items(protected.as_slice(), 0, 1) {
            Some(e) => if e != protected.len() {
                return Err(AttestError::CoseParse);
            },
            None => return Err(AttestError::CoseParse),
        }
        let unprotected = slice_to_vec(bytes, at2, at3);
        Ok(CoseSign1 { protected, unprotected, payload, signature })
    }

    /// Checks the signature with `key` under `sig_algo`. A protected header
    /// that names another algorithm gives `false`; one that names none, or
    /// not as an integer, is an error.
    pub fn verify_signature(&self, sig_algo: SigAlgo, key: &PubKey) -> (r: Result<bool, AttestError>)
        ensures
            r == cose_verify(self@, sig_algo, key.algo, key.val@),
    {
        let v = match protected_alg_exec(self.protected.as_slice()) {
            Some(AlgEntry::Int(v)) => v,
            _ => return Err(AttestError::CoseParse),
        };
        if v != sig_algo_val(sig_algo) as i128 {
            return Ok(false);
        }
        let tbs = sig_structure_bytes(self.protected.as_slice(), self.payload.as_slice());
        verify_signature(key, sig_algo, self.signature.as_slice(), tbs.as_slice())
    }
}


/// Decoding the encoding of an envelope whose two headers are each one
/// encoded map gives the envelope back.
pub proof fn lemma_cose_round_trip(c: CoseView)
    requires
        is_map_item(c.protected),
        is_map_item(c.unprotected),
        c.protected.len() < 0x1_0000_0000_0000_0000,
        c.payload.len() < 0x1_0000_0000_0000_0000,
        c.signature.len() < 0x1_0000_0000_0000_0000,
    ensures
        cose_of(cose_bytes(c)) == Some(c),
{
    let h1 = enc_head(4, 4);
    let h2 = enc_head(2, c.protected.len());
    let h3 = enc_head(2, c.payload.len());
    let h4 = enc_head(2, c.signature.len());
    let b = cose_bytes(c);
    let at1: int = h1.len() as int;
    let at2: int = at1 + h2.len() + c.protected.len();
    let at3: int = at2 + c.unprotected.len();
    let at4: int = at3 + h3.len() + c.payload.len();
    let at5: int = at4 + h4.len() + c.signature.len();
    assert(b.len() == at5);
    assert(h1.len() == 1);
    assert(b.subrange(0, at1) =~= h1);
    lemma_enc_head(4, 4, b, 0);
    assert(b.subrange(at1, at1 + h2.len()) =~= h2);
    lemma_enc_head(2, c.protected.len(), b, at1 as nat);
    assert(b.subrange(at1 + h2.len(), at2) =~= c.protected);
    assert(b.subrange(at2, at3) =~= c.unprotected);
    lemma_head_frame(c.unprotected, b, at2 as nat, 0);
    lemma_skip_frame(c.unprotected, b, at2 as nat, 0, 1);
    assert(b.subrange(at3, at3 + h3.len()) =~= h3);
    lemma_enc_head(2, c.payload.len(), b, at3 as nat);
    assert(b.subrange(at3 + h3.len(), at4) =~= c.payload);
    assert(b.subrange(at4, at4 + h4.len()) =~= h4);
    lemma_enc_head(2, c.signature.len(), b, at4 as nat);
    assert(b.subrange(at4 + h4.len(), at5) =~= c.signature);
}

} // verus!
