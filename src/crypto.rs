//! Hashing and ECDSA signature checks over P-256 and P-384.

use p256::ecdsa::signature::Verifier;
use sha2::Digest;
use vstd::prelude::*;

use crate::error::AttestError;

verus! {

/// Key algorithms that certificates in a chain may carry.
#[derive(Debug, Clone, Copy, PartialEq, Eq, Structural)]
pub enum KeyAlgo {
    EcdsaP256,
    EcdsaP384,
}

/// Signature algorithms that certificates and COSE envelopes may use.
#[derive(Debug, Clone, Copy, PartialEq, Eq, Structural)]
pub enum SigAlgo {
    EcdsaSha256,
    EcdsaSha384,
}

/// A public key as it appears in a certificate: the SEC1 point bytes.
#[derive(Debug, Clone)]
pub struct PubKey {
    pub algo: KeyAlgo,
    pub val: Vec<u8>,
}

/// Byte length of each of `r` and `s` for a curve.
pub open spec fn scalar_len(k: KeyAlgo) -> nat {
    match k {
        KeyAlgo::EcdsaP256 => 32,
        KeyAlgo::EcdsaP384 => 48,
    }
}

/// A signature algorithm fits a key when curve and hash agree.
pub open spec fn compatible(s: SigAlgo, k: KeyAlgo) -> bool {
    (s == SigAlgo::EcdsaSha256 && k == KeyAlgo::EcdsaP256) || (s == SigAlgo::EcdsaSha384
        && k == KeyAlgo::EcdsaP384)
}

pub uninterp spec fn sha256_of(b: Seq<u8>) -> Seq<u8>;

pub uninterp spec fn p256_check(key: Seq<u8>, msg: Seq<u8>, sig: Seq<u8>) -> Option<bool>;

pub uninterp spec fn p384_check(key: Seq<u8>, msg: Seq<u8>, sig: Seq<u8>) -> Option<bool>;

/// Relies on sha2::Sha256::digest: the SHA-256 digest of the bytes, 32 bytes
/// long.
#[verifier::external_body]
pub(crate) fn sha256(b: &[u8]) -> (r: [u8; 32])
    ensures
        r@ == sha256_of(b@),
        r@.len() == 32,
{
    sha2::Sha256::digest(b).into()
}

/// Relies on p256's VerifyingKey::from_sec1_bytes, Signature::from_slice and
/// ECDSA/SHA-256 verification: `None` when the key or the `r || s` signature
/// does not decode, else whether the signature is valid.
#[verifier::external_body]
fn p256_verify(key: &[u8], msg: &[u8], sig: &[u8]) -> (r: Option<bool>)
    ensures
        r == p256_check(key@, msg@, sig@),
{
    let key = p256::ecdsa::VerifyingKey::from_sec1_bytes(key).ok()?;
    let sig = p256::ecdsa::Signature::from_slice(sig).ok()?;
    Some(key.verify(msg, &sig).is_ok())
}

/// Relies on p384's VerifyingKey::from_sec1_bytes, Signature::from_slice and
/// ECDSA/SHA-384 verification: `None` when the key or the `r || s` signature
/// does not decode, else whether the signature is valid.
#[verifier::external_body]
fn p384_verify(key: &[u8], msg: &[u8], sig: &[u8]) -> (r: Option<bool>)
    ensures
        r == p384_check(key@, msg@, sig@),
{
    let key = p384::ecdsa::VerifyingKey::from_sec1_bytes(key).ok()?;
    let sig = p384::ecdsa::Signature::from_slice(sig).ok()?;
    Some(key.verify(msg, &sig).is_ok())
}

/// Outcome of checking a raw `r || s` signature over `msg`.
pub open spec fn signature_check(key: KeyAlgo, key_val: Seq<u8>, algo: SigAlgo, sig: Seq<u8>, msg: Seq<u8>) -> Result<bool, AttestError> {
    if !compatible(algo, key) {
        Err(AttestError::UnsupportedAlgorithm)
    } else {
        let c = match key {
            KeyAlgo::EcdsaP256 => p256_check(key_val, msg, sig),
            KeyAlgo::EcdsaP384 => p384_check(key_val, msg, sig),
        };
        match c {
            Some(v) => Ok(v),
            None => Err(AttestError::MalformedSignature),
        }
    }
}

/// Checks a raw `r || s` signature over `msg` with `key` under `algo`.
pub fn verify_signature(key: &PubKey, algo: SigAlgo, sig: &[u8], msg: &[u8]) -> (r: Result<bool, AttestError>)
    ensures
        r == signature_check(key.algo, key.val@, algo, sig@, msg@),
{
    let ok = match (algo, key.algo) {
        (SigAlgo::EcdsaSha256, KeyAlgo::EcdsaP256) => true,
        (SigAlgo::EcdsaSha384, KeyAlgo::EcdsaP384) => true,
        _ => false,
    };
    if !ok {
        return Err(AttestError::UnsupportedAlgorithm);
    }
    let c = match key.algo {
        KeyAlgo::EcdsaP256 => p256_verify(key.val.as_slice(), msg, sig),
        KeyAlgo::EcdsaP384 => p384_verify(key.val.as_slice(), msg, sig),
    };
    match c {
        Some(v) => Ok(v),
        None => Err(AttestError::MalformedSignature),
    }
}

/// `s` without its leading zero bytes.
pub open spec fn strip_zeros(s: Seq<u8>) -> Seq<u8>
    decreases s.len(),
{
    if s.len() > 0 && s[0] == 0 {
        strip_zeros(s.drop_first())
    } else {
        s
    }
}

/// `s` with zero bytes in front up to length `n`.
pub open spec fn left_pad(s: Seq<u8>, n: nat) -> Seq<u8> {
    Seq::new((n - s.len()) as nat, |i: int| 0u8) + s
}

/// A short-form DER INTEGER at `pos`: its content and the position after it.
pub open spec fn der_int(b: Seq<u8>, pos: nat) -> Option<(Seq<u8>, nat)> {
    let p = pos as int;
    if p + 2 <= b.len() && b[p] == 2 && b[p + 1] < 128 && p + 2 + b[p + 1] <= b.len() {
        Some((b.subrange(p + 2, p + 2 + b[p + 1]), (p + 2 + b[p + 1]) as nat))
    } else {
        None
    }
}

/// The fixed-length `r || s` form of a DER `SEQUENCE { r INTEGER, s INTEGER }`
/// signature, with `n` bytes for each half.
pub open spec fn der_sig_to_raw(sig: Seq<u8>, n: nat) -> Option<Seq<u8>> {
    if sig.len() >= 2 && sig[0] == 0x30 && sig[1] < 128 && sig[1] + 2 == sig.len() {
        match der_int(sig, 2) {
            Some((r, p)) => match der_int(sig, p) {
                Some((s, q)) => if q == sig.len() && strip_zeros(r).len() <= n && strip_zeros(
                    s,
                ).len() <= n {
                    Some(left_pad(strip_zeros(r), n) + left_pad(strip_zeros(s), n))
                } else {
                    None
                },
                None => None,
            },
            None => None,
        }
    } else {
        None
    }
}

fn read_der_int(b: &[u8], pos: usize) -> (r: Option<(usize, usize)>)
    ensures
        match der_int(b@, pos as nat) {
            Some((v, e)) => r matches Some((s, e2)) && e2 == e && s <= e2 <= b.len() && v == b@.subrange(s as int, e2 as int),
            None => r is None,
        },
{
    if pos > b.len() || b.len() - pos < 2 || b[pos] != 2 || b[pos + 1] >= 128 {
        return None;
    }
    let l = b[pos + 1] as usize;
    if l > b.len() - pos - 2 {
        return None;
    }
    Some((pos + 2, pos + 2 + l))
}

/// Appends `b[start..end]` without its leading zeros, left-padded to `n`.
fn push_padded(out: &mut Vec<u8>, b: &[u8], start: usize, end: usize, n: usize) -> (ok: bool)
    requires
        start <= end <= b.len(),
    ensures
        ok == (strip_zeros(b@.subrange(start as int, end as int)).len() <= n),
        ok ==> final(out)@ == old(out)@ + left_pad(strip_zeros(b@.subrange(start as int, end as int)), n as nat),
{
    let mut j: usize = start;
    while j < end && b[j] == 0
        invariant
            start <= j <= end <= b.len(),
            strip_zeros(b@.subrange(start as int, end as int)) == strip_zeros(b@.subrange(j as int, end as int)),
        decreases end - j,
    {
        proof {
            assert(b@.subrange(j as int, end as int).drop_first() =~= b@.subrange(j + 1, end as int));
        }
        j = j + 1;
    }
    proof {
        assert(strip_zeros(b@.subrange(j as int, end as int)) == b@.subrange(j as int, end as int));
    }
    if end - j > n {
        return false;
    }
    let pad = n - (end - j);
    let ghost o = out@;
    let mut i: usize = 0;
    while i < pad
        invariant
            i <= pad,
            out@ == o + Seq::new(i as nat, |k: int| 0u8),
        decreases pad - i,
    {
        out.push(0u8);
        proof {
            assert(out@ =~= o + Seq::new((i + 1) as nat, |k: int| 0u8));
        }
        i = i + 1;
    }
    let ghost o2 = out@;
    let mut k: usize = j;
    while k < end
        invariant
            j <= k <= end <= b.len(),
            out@ == o2 + b@.subrange(j as int, k as int),
        decreases end - k,
    {
        out.push(b[k]);
        proof {
            assert(out@ =~= o2 + b@.subrange(j as int, k + 1));
        }
        k = k + 1;
    }
    proof {
        assert(out@ =~= o + left_pad(b@.subrange(j as int, end as int), n as nat));
    }
    true
}

/// Converts a DER-wrapped ECDSA signature into the fixed-length `r || s`
/// form with `n` bytes for each half.
pub fn ec_decode_sig(sig: &[u8], n: usize) -> (r: Option<Vec<u8>>)
    ensures
        match der_sig_to_raw(sig@, n as nat) {
            Some(v) => r matches Some(w) && w@ == v,
            None => r is None,
        },
{
    if sig.len() < 2 || sig[0] != 0x30 || sig[1] >= 128 || sig[1] as usize + 2 != sig.len() {
        return None;
    }
    let (rs, re) = match read_der_int(sig, 2) {
        Some(x) => x,
        None => return None,
    };
    let (ss, se) = match read_der_int(sig, re) {
        Some(x) => x,
        None => return None,
    };
    if se != sig.len() {
        return None;
    }
    let mut out: Vec<u8> = Vec::new();
    if !push_padded(&mut out, sig, rs, re, n) {
        return None;
    }
    if !push_padded(&mut out, sig, ss, se, n) {
        return None;
    }
    proof {
        assert(out@ =~= Seq::<u8>::empty() + left_pad(strip_zeros(sig@.subrange(rs as int, re as int)), n as nat) + left_pad(strip_zeros(sig@.subrange(ss as int, se as int)), n as nat));
    }
    Some(out)
}

} // verus!
