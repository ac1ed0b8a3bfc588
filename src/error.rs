//! Error kinds of the library.

use vstd::prelude::*;

verus! {

/// What went wrong while parsing, authenticating or preparing a report.
#[derive(Debug, Clone, Copy, PartialEq, Eq, Structural)]
pub enum AttestError {
    /// A certificate is not well-formed DER or does not use a supported key.
    CertParse,
    /// A signature algorithm outside ECDSA P-256/SHA-256 and P-384/SHA-384,
    /// or a signature algorithm that does not fit the issuer's key.
    UnsupportedAlgorithm,
    /// A signature in the chain is malformed; the index is the chain position.
    ChainVerificationFailed(usize),
    /// The chain verified to false: some signature does not match.
    ChainNotTrusted,
    /// The trusted prefix is longer than the chain.
    PrefixTooLong,
    /// A chain without certificates.
    EmptyChain,
    /// A certificate (by chain index) or a report (by batch index) is
    /// outside its time window.
    TimeValidity(usize),
    /// The COSE_Sign1 envelope or its protected header is malformed.
    CoseParse,
    /// The COSE signature does not verify under the leaf key.
    CoseSignatureInvalid,
    /// A signature or key could not be decoded.
    MalformedSignature,
    /// The attestation document inside the envelope is malformed.
    DocParse,
    /// The contract's program identifiers differ from the local ones.
    ContractMismatch,
    /// A chain handed to the certificate cache is empty or too long, or the
    /// cache answered with a wrong number of entries.
    ContractInvariant,
    /// ABI bytes could not be decoded.
    AbiDecode,
    /// A proof without on-chain bytes was handed to the contract.
    NotOnchainProof,
    /// Remote proving needs an endpoint and a credential that are missing.
    MissingRemoteConfig,
    /// Proof bytes are not valid hex.
    HexDecode,
}

} // verus!
