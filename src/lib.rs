//! Verification of AWS Nitro Enclave attestation reports and the host-side
//! decisions around proving them.

pub mod abi;
pub mod cbor;
pub mod cert;
pub mod chain;
pub mod cose;
pub mod crypto;
pub mod doc;
pub mod error;
pub mod guest;
pub mod program;
pub mod prover;
pub mod report;
pub mod schema;
