use std::collections::BTreeMap;

use nitro_attest::chain::CertChain;
use nitro_attest::cose::{sig_structure_bytes, CoseSign1};
use nitro_attest::crypto::{ec_decode_sig, verify_signature, KeyAlgo, PubKey, SigAlgo};
use nitro_attest::doc::AttestationDocument;
use nitro_attest::error::AttestError;
use nitro_attest::guest::verify_attestation_report;
use nitro_attest::program::aggregation_claims;
use nitro_attest::prover::{aggregate_input, summarize_reports, RawProof};
use nitro_attest::report::AttestationReport;
use nitro_attest::schema::{Bytes48, VerificationResult, VerifierInput};
use p384::ecdsa::signature::Signer;
use p384::ecdsa::{Signature, SigningKey};
use serde_cbor::Value;
use sha2::Digest;

const OID_ECDSA_SHA384: [u8; 8] = [0x2A, 0x86, 0x48, 0xCE, 0x3D, 0x04, 0x03, 0x03];
const OID_EC_PUBLIC_KEY: [u8; 7] = [0x2A, 0x86, 0x48, 0xCE, 0x3D, 0x02, 0x01];
const OID_SECP384R1: [u8; 5] = [0x2B, 0x81, 0x04, 0x00, 0x22];
const TS_MS: u64 = 1_700_000_000_000;

fn der(tag: u8, content: &[u8]) -> Vec<u8> {
    let mut v = vec![tag];
    let n = content.len();
    if n < 128 {
        v.push(n as u8);
    } else if n < 256 {
        v.push(0x81);
        v.push(n as u8);
    } else {
        v.push(0x82);
        v.push((n >> 8) as u8);
        v.push(n as u8);
    }
    v.extend_from_slice(content);
    v
}

fn seq(parts: &[Vec<u8>]) -> Vec<u8> {
    der(0x30, &parts.concat())
}

fn key(fill: u8) -> SigningKey {
    SigningKey::from_slice(&[fill; 48]).unwrap()
}

fn point(sk: &SigningKey) -> Vec<u8> {
    sk.verifying_key().to_encoded_point(false).as_bytes().to_vec()
}

fn make_cert(issuer: &SigningKey, subject: &SigningKey, serial: u8, not_after: &str) -> Vec<u8> {
    let alg = seq(&[der(0x06, &OID_ECDSA_SHA384)]);
    let spki = seq(&[
        seq(&[der(0x06, &OID_EC_PUBLIC_KEY), der(0x06, &OID_SECP384R1)]),
        der(0x03, &[&[0u8][..], &point(subject)].concat()),
    ]);
    let tbs = seq(&[
        der(0xa0, &der(0x02, &[2])),
        der(0x02, &[serial]),
        alg.clone(),
        seq(&[]),
        seq(&[der(0x17, b"200101000000Z"), der(0x17, not_after.as_bytes())]),
        seq(&[]),
        spki,
    ]);
    let sig: Signature = issuer.sign(&tbs);
    seq(&[tbs, alg, der(0x03, &[&[0u8][..], sig.to_der().as_bytes()].concat())])
}

struct Fixture {
    root: Vec<u8>,
    inter: Vec<u8>,
    leaf: Vec<u8>,
}

fn fixture() -> Fixture {
    let (r, i, l) = (key(1), key(2), key(3));
    Fixture {
        root: make_cert(&r, &r, 1, "491231235959Z"),
        inter: make_cert(&r, &i, 2, "491231235959Z"),
        leaf: make_cert(&i, &l, 3, "491231235959Z"),
    }
}

fn text(s: &str) -> Value {
    Value::Text(s.to_string())
}

fn doc_value(f: &Fixture, ts: u64, pcrs: &[(u64, [u8; 48])], user_data: Option<Vec<u8>>) -> Value {
    let mut m = BTreeMap::new();
    m.insert(text("module_id"), text("i-0123-enc0456"));
    m.insert(text("timestamp"), Value::Integer(ts as i128));
    m.insert(text("digest"), text("SHA384"));
    let mut p = BTreeMap::new();
    for (k, v) in pcrs {
        p.insert(Value::Integer(*k as i128), Value::Bytes(v.to_vec()));
    }
    m.insert(text("pcrs"), Value::Map(p));
    m.insert(text("certificate"), Value::Bytes(f.leaf.clone()));
    m.insert(text("cabundle"), Value::Array(vec![Value::Bytes(f.root.clone()), Value::Bytes(f.inter.clone())]));
    m.insert(text("public_key"), Value::Null);
    if let Some(u) = user_data {
        m.insert(text("user_data"), Value::Bytes(u));
    }
    Value::Map(m)
}

fn envelope(payload: &[u8], alg: i128, signer: &SigningKey) -> Vec<u8> {
    let mut h = BTreeMap::new();
    h.insert(Value::Integer(1), Value::Integer(alg));
    let protected = serde_cbor::to_vec(&Value::Map(h)).unwrap();
    let tbs = serde_cbor::to_vec(&Value::Array(vec![
        text("Signature1"),
        Value::Bytes(protected.clone()),
        Value::Bytes(vec![]),
        Value::Bytes(payload.to_vec()),
    ]))
    .unwrap();
    let sig: Signature = signer.sign(&tbs);
    let body = serde_cbor::to_vec(&Value::Array(vec![
        Value::Bytes(protected),
        Value::Map(BTreeMap::new()),
        Value::Bytes(payload.to_vec()),
        Value::Bytes(sig.to_bytes().to_vec()),
    ]))
    .unwrap();
    [&[0xd2u8][..], &body].concat()
}

fn report_with(ts: u64, pcrs: &[(u64, [u8; 48])], user_data: Option<Vec<u8>>) -> (Fixture, Vec<u8>) {
    let f = fixture();
    let payload = serde_cbor::to_vec(&doc_value(&f, ts, pcrs, user_data)).unwrap();
    let r = envelope(&payload, -35, &key(3));
    (f, r)
}

fn pcr(fill: u8) -> [u8; 48] {
    [fill; 48]
}

#[test]
fn parse_report_reads_timestamp() {
    let (_, r) = report_with(TS_MS, &[(0, pcr(7))], None);
    let report = AttestationReport::parse(&r).unwrap();
    assert_eq!(report.doc().timestamp, TS_MS);
    assert_eq!(report.doc().module_id, "i-0123-enc0456");
    assert_eq!(report.doc().digest, "SHA384");
}

#[test]
fn untagged_envelope_parses_and_other_tag_is_refused() {
    let (_, r) = report_with(TS_MS, &[], None);
    assert!(CoseSign1::from_bytes(&r[1..]).is_ok());
    let mut tagged17 = r.clone();
    tagged17[0] = 0xd1;
    assert_eq!(CoseSign1::from_bytes(&tagged17).unwrap_err(), AttestError::CoseParse);
    let mut trailing = r.clone();
    trailing.push(0);
    assert_eq!(CoseSign1::from_bytes(&trailing).unwrap_err(), AttestError::CoseParse);
}

#[test]
fn single_report_root_only_trust_succeeds() {
    let (_, r) = report_with(TS_MS, &[(0, pcr(7))], Some(vec![1, 2, 3]));
    let input = VerifierInput { trusted_certs_prefix_len: 1, attestation_report: r };
    let j = verify_attestation_report(&input).unwrap();
    assert_eq!(j.result, VerificationResult::Success);
    assert!(j.certs.len() >= 2);
    assert_eq!(j.certs.len(), 3);
    assert_eq!(j.trusted_certs_prefix_len, 1);
    assert_eq!(j.timestamp, TS_MS);
    assert_eq!(j.user_data, vec![1, 2, 3]);
    assert_eq!(j.module_id, "i-0123-enc0456");
}

#[test]
fn every_prefix_of_a_valid_chain_verifies() {
    let (_, r) = report_with(TS_MS, &[], None);
    for n in 0..=3u8 {
        let input = VerifierInput { trusted_certs_prefix_len: n, attestation_report: r.clone() };
        assert!(verify_attestation_report(&input).is_ok(), "prefix {}", n);
    }
    let input = VerifierInput { trusted_certs_prefix_len: 4, attestation_report: r };
    assert_eq!(verify_attestation_report(&input).unwrap_err(), AttestError::PrefixTooLong);
}

#[test]
fn chain_digests_follow_the_inductive_rule() {
    let f = fixture();
    let ders = vec![f.root.clone(), f.inter.clone(), f.leaf.clone()];
    let chain = CertChain::parse(&ders).unwrap();
    let d = chain.digest();
    assert_eq!(d.len(), 3);
    let h = |b: &[u8]| -> [u8; 32] { sha2::Sha256::digest(b).into() };
    assert_eq!(d[0], h(&f.root));
    for i in 1..3 {
        let expect = h(&[&d[i - 1][..], &h(&ders[i])[..]].concat());
        assert_eq!(d[i], expect);
    }
    let rev = CertChain::parse_rev(&vec![f.leaf.clone(), f.inter.clone(), f.root.clone()]).unwrap();
    assert_eq!(rev.digest(), d);
    assert!(chain.verify_chain(0).unwrap());
}

#[test]
fn tampered_intermediate_fails_authentication() {
    let f = fixture();
    let mut inter = f.inter.clone();
    let at = inter.windows(13).position(|w| w == b"200101000000Z").unwrap();
    inter[at + 11] = b'1';
    let mut m = match doc_value(&f, TS_MS, &[], None) {
        Value::Map(m) => m,
        _ => unreachable!(),
    };
    m.insert(text("cabundle"), Value::Array(vec![Value::Bytes(f.root.clone()), Value::Bytes(inter)]));
    let payload = serde_cbor::to_vec(&Value::Map(m)).unwrap();
    let r = envelope(&payload, -35, &key(3));
    let report = AttestationReport::parse(&r).unwrap();
    assert!(report.authenticate(1, TS_MS / 1000).is_err());
    let input = VerifierInput { trusted_certs_prefix_len: 1, attestation_report: r };
    assert_eq!(verify_attestation_report(&input).unwrap_err(), AttestError::ChainNotTrusted);
}

#[test]
fn pcr_list_keeps_only_nonzero_values_in_index_order() {
    let (_, r) = report_with(TS_MS, &[(4, pcr(9)), (0, pcr(1)), (1, pcr(0)), (2, pcr(2))], None);
    let input = VerifierInput { trusted_certs_prefix_len: 1, attestation_report: r };
    let j = verify_attestation_report(&input).unwrap();
    let idx: Vec<u64> = j.pcrs.iter().map(|p| p.index).collect();
    assert_eq!(idx, vec![0, 2, 4]);
    assert_eq!(j.pcrs[1].value.to_bytes(), vec![2u8; 48]);
}

#[test]
fn absent_optional_fields_become_empty() {
    let (_, r) = report_with(TS_MS, &[], None);
    let input = VerifierInput { trusted_certs_prefix_len: 1, attestation_report: r };
    let j = verify_attestation_report(&input).unwrap();
    assert_eq!(j.user_data.len(), 0);
    assert_eq!(j.nonce.len(), 0);
    assert_eq!(j.public_key.len(), 0);
}

#[test]
fn document_requires_its_fields_and_refuses_duplicates() {
    let f = fixture();
    let mut m = match doc_value(&f, TS_MS, &[], None) {
        Value::Map(m) => m,
        _ => unreachable!(),
    };
    m.remove(&text("digest"));
    let payload = serde_cbor::to_vec(&Value::Map(m)).unwrap();
    assert_eq!(AttestationDocument::parse(&payload).unwrap_err(), AttestError::DocParse);
    // a map of one entry, "nonce": null, twice
    let dup = [0xa2u8, 0x65, b'n', b'o', b'n', b'c', b'e', 0xf6, 0x65, b'n', b'o', b'n', b'c', b'e', 0xf6];
    assert_eq!(AttestationDocument::parse(&dup).unwrap_err(), AttestError::DocParse);
}

#[test]
fn later_pcr_entry_replaces_earlier_one() {
    let f = fixture();
    let mut m = match doc_value(&f, TS_MS, &[], None) {
        Value::Map(m) => m,
        _ => unreachable!(),
    };
    m.remove(&text("pcrs"));
    let mut body = serde_cbor::to_vec(&Value::Map(m)).unwrap();
    // add one entry to the map: "pcrs" => {5: a, 3: b, 5: c}
    body[0] += 1;
    body.extend_from_slice(&[0x64, b'p', b'c', b'r', b's', 0xa3]);
    for (k, fill) in [(5u8, 0xaau8), (3, 0xbb), (5, 0xcc)] {
        body.push(k);
        body.extend_from_slice(&[0x58, 48]);
        body.extend_from_slice(&[fill; 48]);
    }
    let doc = AttestationDocument::parse(&body).unwrap();
    let got: Vec<(u64, u8)> = doc.pcrs.iter().map(|p| (p.index, p.value.first[0])).collect();
    assert_eq!(got, vec![(3, 0xbb), (5, 0xcc)]);
}

#[test]
fn expired_leaf_fails_time_check() {
    let f = fixture();
    let leaf = make_cert(&key(2), &key(3), 3, "210101000000Z");
    let mut m = match doc_value(&f, TS_MS, &[], None) {
        Value::Map(m) => m,
        _ => unreachable!(),
    };
    m.insert(text("certificate"), Value::Bytes(leaf));
    let payload = serde_cbor::to_vec(&Value::Map(m)).unwrap();
    let r = envelope(&payload, -35, &key(3));
    let input = VerifierInput { trusted_certs_prefix_len: 1, attestation_report: r };
    assert_eq!(verify_attestation_report(&input).unwrap_err(), AttestError::TimeValidity(2));
}

#[test]
fn cose_signature_checks() {
    let (_, r) = report_with(TS_MS, &[], None);
    let cose = CoseSign1::from_bytes(&r).unwrap();
    let key_bytes = point(&key(3));
    let pk = PubKey { algo: KeyAlgo::EcdsaP384, val: key_bytes.clone() };
    assert_eq!(cose.verify_signature(SigAlgo::EcdsaSha384, &pk), Ok(true));
    let other = PubKey { algo: KeyAlgo::EcdsaP384, val: point(&key(4)) };
    assert_eq!(cose.verify_signature(SigAlgo::EcdsaSha384, &other), Ok(false));
    assert_eq!(cose.verify_signature(SigAlgo::EcdsaSha256, &pk), Ok(false));
    let payload = cose.payload.clone();
    let r2 = envelope(&payload, -7, &key(3));
    let cose2 = CoseSign1::from_bytes(&r2).unwrap();
    assert_eq!(cose2.verify_signature(SigAlgo::EcdsaSha384, &pk), Ok(false));
    let wrong_key = PubKey { algo: KeyAlgo::EcdsaP256, val: key_bytes };
    assert_eq!(cose.verify_signature(SigAlgo::EcdsaSha384, &wrong_key), Err(AttestError::UnsupportedAlgorithm));
}

#[test]
fn cose_without_algorithm_is_an_error() {
    let payload = vec![0xa0u8];
    let body = serde_cbor::to_vec(&Value::Array(vec![
        Value::Bytes(vec![0xa0]),
        Value::Map(BTreeMap::new()),
        Value::Bytes(payload),
        Value::Bytes(vec![0; 96]),
    ]))
    .unwrap();
    let cose = CoseSign1::from_bytes(&body).unwrap();
    let pk = PubKey { algo: KeyAlgo::EcdsaP384, val: point(&key(3)) };
    assert_eq!(cose.verify_signature(SigAlgo::EcdsaSha384, &pk), Err(AttestError::CoseParse));
}

#[test]
fn sig_structure_matches_cbor_array() {
    let protected = vec![0xa1, 0x01, 0x38, 0x22];
    let payload: Vec<u8> = (0..300u32).map(|i| i as u8).collect();
    let expect = serde_cbor::to_vec(&Value::Array(vec![
        text("Signature1"),
        Value::Bytes(protected.clone()),
        Value::Bytes(vec![]),
        Value::Bytes(payload.clone()),
    ]))
    .unwrap();
    assert_eq!(sig_structure_bytes(&protected, &payload), expect);
}

#[test]
fn der_signature_converts_to_fixed_width() {
    let sig: Signature = key(5).sign(b"message");
    let raw = ec_decode_sig(sig.to_der().as_bytes(), 48).unwrap();
    assert_eq!(raw, sig.to_bytes().to_vec());
    let short = [0x30u8, 0x06, 0x02, 0x01, 0x05, 0x02, 0x01, 0x07];
    let mut expect = vec![0u8; 96];
    expect[47] = 5;
    expect[95] = 7;
    assert_eq!(ec_decode_sig(&short, 48).unwrap(), expect);
    let padded = [0x30u8, 0x07, 0x02, 0x02, 0x00, 0x85, 0x02, 0x01, 0x07];
    assert_eq!(ec_decode_sig(&padded, 32).unwrap()[31], 0x85);
    assert!(ec_decode_sig(&short[..7], 48).is_none());
}

#[test]
fn bytes48_splits_and_checks_zero() {
    let mut v = vec![0u8; 48];
    let b = Bytes48::from_slice(&v);
    assert!(b.is_zero());
    v[40] = 1;
    let b = Bytes48::from_slice(&v);
    assert!(!b.is_zero());
    assert_eq!(b.second[8], 1);
    assert_eq!(b.to_bytes(), v);
}

#[test]
fn batch_of_two_reports_carries_both_journals_in_order() {
    let (_, r1) = report_with(TS_MS, &[(0, pcr(1))], Some(vec![1]));
    let (_, r2) = report_with(TS_MS + 5_000, &[(0, pcr(2))], Some(vec![2]));
    let j1 = verify_attestation_report(&VerifierInput { trusted_certs_prefix_len: 1, attestation_report: r1.clone() }).unwrap();
    let j2 = verify_attestation_report(&VerifierInput { trusted_certs_prefix_len: 1, attestation_report: r2.clone() }).unwrap();
    let proofs = vec![
        RawProof { encoded_proof: vec![1], journal: j1.encode() },
        RawProof { encoded_proof: vec![2], journal: j2.encode() },
    ];
    let batch = aggregate_input([6; 32], &proofs).unwrap();
    assert_eq!(batch.outputs.len(), 2);
    assert_eq!(batch.outputs[0].encode(), j1.encode());
    assert_eq!(batch.outputs[1].encode(), j2.encode());
    assert_eq!(batch.outputs[1].timestamp, TS_MS + 5_000);
    let claims = aggregation_claims(&batch);
    assert_eq!(claims, vec![j1.digest(), j2.digest()]);
    let summaries = summarize_reports(&vec![r1, r2]).unwrap();
    assert_eq!(summaries[0].cert_digests, j1.certs);
    assert_eq!(summaries[1].timestamp, TS_MS + 5_000);
}

#[test]
fn summaries_report_the_first_bad_report() {
    let (_, r) = report_with(TS_MS, &[], None);
    let err = summarize_reports(&vec![r, vec![0x01]]).unwrap_err();
    assert_eq!(err, AttestError::CoseParse);
}

#[test]
fn envelope_encodes_back_to_the_same_structure() {
    let (_, r) = report_with(TS_MS, &[(1, pcr(4))], None);
    let cose = CoseSign1::from_bytes(&r).unwrap();
    let bytes = cose.to_bytes();
    assert_eq!(bytes, r[1..].to_vec());
    let again = CoseSign1::from_bytes(&bytes).unwrap();
    assert_eq!(again.protected, cose.protected);
    assert_eq!(again.unprotected, cose.unprotected);
    assert_eq!(again.payload, cose.payload);
    assert_eq!(again.signature, cose.signature);
}

#[test]
fn p256_signatures_verify_under_sha256() {
    let sk = p256::ecdsa::SigningKey::from_slice(&[7u8; 32]).unwrap();
    let pk = PubKey { algo: KeyAlgo::EcdsaP256, val: sk.verifying_key().to_encoded_point(false).as_bytes().to_vec() };
    let sig: p256::ecdsa::Signature = sk.sign(b"hello");
    let raw = sig.to_bytes().to_vec();
    assert_eq!(verify_signature(&pk, SigAlgo::EcdsaSha256, &raw, b"hello"), Ok(true));
    assert_eq!(verify_signature(&pk, SigAlgo::EcdsaSha256, &raw, b"hellO"), Ok(false));
    assert_eq!(verify_signature(&pk, SigAlgo::EcdsaSha384, &raw, b"hello"), Err(AttestError::UnsupportedAlgorithm));
    assert_eq!(verify_signature(&pk, SigAlgo::EcdsaSha256, &raw[..10], b"hello"), Err(AttestError::MalformedSignature));
    let der = ec_decode_sig(sig.to_der().as_bytes(), 32).unwrap();
    assert_eq!(der, raw);
}
