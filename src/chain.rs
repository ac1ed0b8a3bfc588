//! Certificate chains ordered root to leaf.

use vstd::prelude::*;

use crate::cert::{cert_of, link_check, Cert, CertView};
use crate::crypto::{sha256, sha256_of, PubKey};
use crate::error::AttestError;

verus! {

/// The path digests of a chain of DER certificates: the first is the
/// SHA-256 of the root, each further one the SHA-256 of the previous digest
/// followed by the SHA-256 of the certificate.
pub open spec fn path_digests(ders: Seq<Seq<u8>>) -> Seq<Seq<u8>>
    decreases ders.len(),
{
    if ders.len() == 0 {
        Seq::empty()
    } else {
        let prev = path_digests(ders.drop_last());
        let d = sha256_of(ders.last());
        prev.push(if prev.len() == 0 { d } else { sha256_of(prev.last() + d) })
    }
}

pub proof fn lemma_path_digests_len(ders: Seq<Seq<u8>>)
    ensures
        path_digests(ders).len() == ders.len(),
    decreases ders.len(),
{
    if ders.len() > 0 {
        lemma_path_digests_len(ders.drop_last());
    }
}

/// The inductive rule of path digests: the first digest is the SHA-256 of
/// the root certificate, and every later digest is the SHA-256 of the
/// digest before it followed by the SHA-256 of its own certificate.
pub proof fn lemma_path_digest_rule(ders: Seq<Seq<u8>>, i: int)
    requires
        0 <= i < ders.len(),
    ensures
        i == 0 ==> path_digests(ders)[i] == sha256_of(ders[0]),
        i > 0 ==> path_digests(ders)[i] == sha256_of(path_digests(ders)[i - 1] + sha256_of(ders[i])),
    decreases ders.len(),
{
    lemma_path_digests_len(ders);
    lemma_path_digests_len(ders.drop_last());
    if i < ders.len() - 1 {
        lemma_path_digest_rule(ders.drop_last(), i);
        if i > 0 {
            assert(path_digests(ders)[i - 1] == path_digests(ders.drop_last())[i - 1]);
        }
    } else if i > 0 {
        assert(path_digests(ders)[i - 1] == path_digests(ders.drop_last()).last());
    }
}

/// The DER bytes of each certificate.
pub open spec fn ders_of(cs: Seq<CertView>) -> Seq<Seq<u8>> {
    cs.map_values(|c: CertView| c.bytes)
}

/// Parsing DER certificates one after the other; the first failure wins.
pub open spec fn certs_of(ders: Seq<Seq<u8>>) -> Result<Seq<CertView>, AttestError>
    decreases ders.len(),
{
    if ders.len() == 0 {
        Ok(Seq::empty())
    } else {
        match certs_of(ders.drop_last()) {
            Err(e) => Err(e),
            Ok(cs) => match cert_of(ders.last()) {
                Err(e) => Err(e),
                Ok(c) => Ok(cs.push(c)),
            },
        }
    }
}

proof fn lemma_certs_of_err(ders: Seq<Seq<u8>>, j: int)
    requires
        0 <= j <= ders.len(),
        certs_of(ders.take(j)) is Err,
    ensures
        certs_of(ders) == certs_of(ders.take(j)),
    decreases ders.len() - j,
{
    if j < ders.len() {
        assert(ders.take(j + 1).drop_last() =~= ders.take(j));
        lemma_certs_of_err(ders, j + 1);
    } else {
        assert(ders.take(j) =~= ders);
    }
}

/// The signature check of link `i`: certificate `i` against its parent, or
/// the root against itself.
pub open spec fn link_of(cs: Seq<CertView>, i: int) -> Result<bool, AttestError> {
    link_check(cs[i], if i == 0 { cs[0] } else { cs[i - 1] })
}

/// Checks the links from `i` to the leaf.
pub open spec fn verify_from(cs: Seq<CertView>, i: nat) -> Result<bool, AttestError>
    decreases cs.len() - i,
{
    if i >= cs.len() {
        Ok(true)
    } else {
        match link_of(cs, i as int) {
            Err(_) => Err(AttestError::ChainVerificationFailed(i as usize)),
            Ok(false) => Ok(false),
            Ok(true) => verify_from(cs, i + 1),
        }
    }
}

/// Outcome of verifying a chain whose first `n` certificates are trusted.
pub open spec fn chain_verify(cs: Seq<CertView>, n: nat) -> Result<bool, AttestError> {
    if n > cs.len() {
        Err(AttestError::PrefixTooLong)
    } else {
        verify_from(cs, n)
    }
}

/// Checks the time windows from `i` to the leaf.
pub open spec fn valid_from(cs: Seq<CertView>, t: int, i: nat) -> Result<(), AttestError>
    decreases cs.len() - i,
{
    if i >= cs.len() {
        Ok(())
    } else if !(cs[i as int].not_before <= t && t <= cs[i as int].not_after) {
        Err(AttestError::TimeValidity(i as usize))
    } else {
        valid_from(cs, t, i + 1)
    }
}

/// Every certificate of a non-empty chain is valid at `t`; otherwise the
/// first index that is not.
pub open spec fn chain_valid_at(cs: Seq<CertView>, t: int) -> Result<(), AttestError> {
    if cs.len() == 0 {
        Err(AttestError::EmptyChain)
    } else {
        valid_from(cs, t, 0)
    }
}

/// A chain of parsed certificates, root first, with one path digest per
/// certificate.
pub struct CertChain {
    pub certs: Vec<Cert>,
    pub path_digest: Vec<[u8; 32]>,
}

impl View for CertChain {
    type V = Seq<CertView>;

    open spec fn view(&self) -> Seq<CertView> {
        self.certs@.map_values(|c: Cert| c@)
    }
}

impl CertChain {
    /// The path digests as byte sequences.
    pub open spec fn digests(&self) -> Seq<Seq<u8>> {
        self.path_digest@.map_values(|d: [u8; 32]| d@)
    }

    /// The path digests are those of the certificates.
    pub open spec fn wf(&self) -> bool {
        self.digests() == path_digests(ders_of(self@))
    }

    /// An empty chain.
    pub fn new() -> (r: CertChain)
        ensures
            r@ == Seq::<CertView>::empty(),
            r.wf(),
    {
        let r = CertChain { certs: Vec::new(), path_digest: Vec::new() };
        assert(r@ =~= Seq::<CertView>::empty());
        assert(r.digests() =~= Seq::<Seq<u8>>::empty());
        assert(ders_of(r@) =~= Seq::<Seq<u8>>::empty());
        r
    }

    /// Parses a DER certificate and appends it as the new leaf.
    pub fn add_cert_by_der(&mut self, der: &[u8]) -> (r: Result<(), AttestError>)
        requires
            old(self).wf(),
        ensures
            final(self).wf(),
            match r {
                Ok(()) => cert_of(der@) is Ok && final(self)@ == old(self)@.push(cert_of(der@)->Ok_0),
                Err(e) => cert_of(der@) == Err::<CertView, AttestError>(e) && final(self)@ == old(self)@,
            },
    {
        let cert = Cert::parse_der(der)?;
        let d = cert.digest();
        let ghost old_ders = ders_of(self@);
        proof {
            lemma_path_digests_len(old_ders);
            assert(self.path_digest@.len() == self.digests().len());
        }
        let n = self.path_digest.len();
        let pd = if n == 0 {
            d
        } else {
            let mut buf: Vec<u8> = Vec::new();
            let prev = self.path_digest[n - 1];
            push_all(&mut buf, &prev);
            push_all(&mut buf, &d);
            proof {
                assert(self.digests().last() == prev@);
            }
            sha256(buf.as_slice())
        };
        self.path_digest.push(pd);
        self.certs.push(cert);
        proof {
            assert(self@ =~= old(self)@.push(cert@));
            assert(ders_of(self@).drop_last() =~= old_ders);
            assert(self.digests() =~= old(self).digests().push(pd@));
        }
        Ok(())
    }

    /// Parses DER certificates given root first.
    pub fn parse(ders: &[Vec<u8>]) -> (r: Result<CertChain, AttestError>)
        ensures
            match r {
                Ok(c) => c.wf() && certs_of(ders@.map_values(|d: Vec<u8>| d@)) == Ok::<Seq<CertView>, AttestError>(c@),
                Err(e) => certs_of(ders@.map_values(|d: Vec<u8>| d@)) == Err::<Seq<CertView>, AttestError>(e),
            },
    {
        let ghost all = ders@.map_values(|d: Vec<u8>| d@);
        let mut chain = CertChain::new();
        let mut i: usize = 0;
        proof {
            assert(all.take(0) =~= Seq::<Seq<u8>>::empty());
        }
        while i < ders.len()
            invariant
                i <= ders.len(),
                all == ders@.map_values(|d: Vec<u8>| d@),
                chain.wf(),
                certs_of(all.take(i as int)) == Ok::<Seq<CertView>, AttestError>(chain@),
            decreases ders.len() - i,
        {
            proof {
                assert(all.take(i + 1).drop_last() =~= all.take(i as int));
                assert(all.take(i + 1).last() == ders[i as int]@);
            }
            match chain.add_cert_by_der(ders[i].as_slice()) {
                Ok(()) => {},
                Err(e) => {
                    proof {
                        lemma_certs_of_err(all, i + 1);
                    }
                    return Err(e);
                },
            }
            i = i + 1;
        }
        proof {
            assert(all.take(i as int) =~= all);
        }
        Ok(chain)
    }

    /// Parses DER certificates given leaf first.
    pub fn parse_rev(ders: &[Vec<u8>]) -> (r: Result<CertChain, AttestError>)
        ensures
            match r {
                Ok(c) => c.wf() && certs_of(ders@.map_values(|d: Vec<u8>| d@).reverse()) == Ok::<Seq<CertView>, AttestError>(c@),
                Err(e) => certs_of(ders@.map_values(|d: Vec<u8>| d@).reverse()) == Err::<Seq<CertView>, AttestError>(e),
            },
    {
        let mut rev: Vec<Vec<u8>> = Vec::new();
        let mut i: usize = ders.len();
        while i > 0
            invariant
                i <= ders.len(),
                rev@.len() == ders.len() - i,
                forall|k: int| 0 <= k < rev@.len() ==> rev@[k]@ == ders@[ders.len() - 1 - k]@,
            decreases i,
        {
            i = i - 1;
            let d = slice_copy(ders[i].as_slice());
            rev.push(d);
        }
        proof {
            assert(rev@.map_values(|d: Vec<u8>| d@) =~= ders@.map_values(|d: Vec<u8>| d@).reverse());
        }
        CertChain::parse(rev.as_slice())
    }

    /// The leaf's public key.
    pub fn leaf_pubkey(&self) -> (r: PubKey)
        requires
            self@.len() > 0,
        ensures
            r.algo == self@.last().key_algo,
            r.val@ == self@.last().key,
    {
        self.certs[self.certs.len() - 1].pubkey()
    }

    /// The leaf certificate.
    pub fn leaf(&self) -> (r: &Cert)
        requires
            self@.len() > 0,
        ensures
            r@ == self@.last(),
    {
        &self.certs[self.certs.len() - 1]
    }

    /// The root certificate.
    pub fn root(&self) -> (r: &Cert)
        requires
            self@.len() > 0,
        ensures
            r@ == self@[0],
    {
        &self.certs[0]
    }

    /// The path digests, root first.
    pub fn digest(&self) -> (r: &[[u8; 32]])
        ensures
            r@ == self.path_digest@,
    {
        self.path_digest.as_slice()
    }

    /// Checks that every certificate is valid at `timestamp` (seconds since
    /// the Unix epoch); an empty chain is refused.
    pub fn check_valid(&self, timestamp: u64) -> (r: Result<(), AttestError>)
        ensures
            r == chain_valid_at(self@, timestamp as int),
    {
        if self.certs.len() == 0 {
            return Err(AttestError::EmptyChain);
        }
        let mut i: usize = 0;
        while i < self.certs.len()
            invariant
                i <= self.certs.len(),
                self@.len() == self.certs.len(),
                valid_from(self@, timestamp as int, 0) == valid_from(self@, timestamp as int, i as nat),
            decreases self.certs.len() - i,
        {
            if !self.certs[i].check_valid(timestamp) {
                return Err(AttestError::TimeValidity(i));
            }
            i = i + 1;
        }
        Ok(())
    }

    /// Verifies the signatures of the chain, taking its first
    /// `trusted_certs_len` certificates as already trusted. With nothing
    /// trusted the root is checked against its own key.
    pub fn verify_chain(&self, trusted_certs_len: usize) -> (r: Result<bool, AttestError>)
        ensures
            r == chain_verify(self@, trusted_certs_len as nat),
    {
        if trusted_certs_len > self.certs.len() {
            return Err(AttestError::PrefixTooLong);
        }
        let mut i: usize = trusted_certs_len;
        while i < self.certs.len()
            invariant
                trusted_certs_len <= i <= self.certs.len(),
                self@.len() == self.certs.len(),
                verify_from(self@, trusted_certs_len as nat) == verify_from(self@, i as nat),
            decreases self.certs.len() - i,
        {
            let subject = &self.certs[i];
            let res = if i == 0 {
                subject.verify(None)
            } else {
                subject.verify(Some(&self.certs[i - 1]))
            };
            match res {
                Err(_) => return Err(AttestError::ChainVerificationFailed(i)),
                Ok(false) => return Ok(false),
                Ok(true) => {},
            }
            i = i + 1;
        }
        Ok(true)
    }
}

fn push_all(buf: &mut Vec<u8>, a: &[u8; 32])
    ensures
        final(buf)@ == old(buf)@ + a@,
{
    let ghost o = buf@;
    let mut i: usize = 0;
    while i < 32
        invariant
            i <= 32,
            a@.len() == 32,
            buf@ == o + a@.subrange(0, i as int),
        decreases 32 - i,
    {
        buf.push(a[i]);
        proof {
            assert(buf@ =~= o + a@.subrange(0, i + 1));
        }
        i = i + 1;
    }
    assert(a@.subrange(0, 32) =~= a@);
}

fn slice_copy(b: &[u8]) -> (r: Vec<u8>)
    ensures
        r@ == b@,
{
    let r = crate::cbor::slice_to_vec(b, 0, b.len());
    assert(r@ =~= b@);
    r
}

/// Once a whole chain verifies, skipping any prefix of it gives the same
/// answer.
pub proof fn lemma_prefix_skip(cs: Seq<CertView>, n: nat)
    requires
        chain_verify(cs, 0) == Ok::<bool, AttestError>(true),
        n <= cs.len(),
    ensures
        chain_verify(cs, n) == Ok::<bool, AttestError>(true),
    decreases n,
{
    if n > 0 {
        lemma_prefix_skip(cs, (n - 1) as nat);
    }
}

/// A link past the trusted prefix whose signature does not match makes the
/// chain verify to false, provided the links before it match.
pub proof fn lemma_tampered_link(cs: Seq<CertView>, n: nat, j: nat)
    requires
        n <= j < cs.len(),
        link_of(cs, j as int) == Ok::<bool, AttestError>(false),
        forall|k: int| n <= k < j ==> link_of(cs, k) == Ok::<bool, AttestError>(true),
    ensures
        chain_verify(cs, n) == Ok::<bool, AttestError>(false),
    decreases j - n,
{
    if n < j {
        lemma_tampered_link(cs, n + 1, j);
    }
}

} // verus!
