use nitro_attest::error::AttestError;
use nitro_attest::prover::{
    aggregate_input, aggregator_journal, check_cert_cache_query, onchain_route,
    prepare_verifier_inputs, sp1_onchain_proof, trusted_prefix_len, ContractAnswers, ProgramId,
    ProofType, ProverConfig, ProverSystemConfig, ProverWarning, RawProof, RemoteProverConfig,
    ReportSummary, RiscZeroProverConfig, SP1ProverConfig, Sp1ProofKind, ZkCoProcessorConfig,
    DEFAULT_MAX_TIME_DIFF,
};
use nitro_attest::schema::{
    BatchVerifierInput, BatchVerifierJournal, Bytes48, Pcr, VerificationResult, VerifierInput,
    VerifierJournal,
};

fn journal(tag: u8) -> VerifierJournal {
    VerifierJournal {
        result: VerificationResult::Success,
        certs: vec![[tag; 32], [tag + 1; 32]],
        trusted_certs_prefix_len: 1,
        user_data: vec![tag, 9],
        nonce: vec![],
        public_key: vec![1; 40],
        pcrs: vec![Pcr { index: 3, value: Bytes48 { first: [tag; 32], second: [5; 16] } }],
        module_id: format!("module-{}", tag),
        timestamp: 1_700_000_000_000 + tag as u64,
    }
}

fn same_journal(a: &VerifierJournal, b: &VerifierJournal) -> bool {
    a.result == b.result
        && a.certs == b.certs
        && a.trusted_certs_prefix_len == b.trusted_certs_prefix_len
        && a.user_data == b.user_data
        && a.nonce == b.nonce
        && a.public_key == b.public_key
        && a.pcrs.len() == b.pcrs.len()
        && a.pcrs.iter().zip(b.pcrs.iter()).all(|(x, y)| x.index == y.index && x.value.to_bytes() == y.value.to_bytes())
        && a.module_id == b.module_id
        && a.timestamp == b.timestamp
}

fn word(v: u64) -> Vec<u8> {
    let mut w = vec![0u8; 24];
    w.extend_from_slice(&v.to_be_bytes());
    w
}

#[test]
fn verifier_input_abi_layout_and_round_trip() {
    let input = VerifierInput { trusted_certs_prefix_len: 1, attestation_report: b"ab".to_vec() };
    let enc = input.encode();
    let mut data = b"ab".to_vec();
    data.resize(32, 0);
    let expect = [word(0x20), word(1), word(0x40), word(2), data].concat();
    assert_eq!(enc, expect);
    let back = VerifierInput::decode(&enc).unwrap();
    assert_eq!(back.trusted_certs_prefix_len, 1);
    assert_eq!(back.attestation_report, b"ab".to_vec());
    assert_eq!(VerifierInput::decode(&enc[..40]).unwrap_err(), AttestError::AbiDecode);
}

#[test]
fn journal_round_trip() {
    let j = journal(7);
    let enc = j.encode();
    assert!(enc.len() > 32 * 9);
    let back = VerifierJournal::decode(&enc).unwrap();
    assert!(same_journal(&j, &back));
    assert_ne!(j.digest(), [0u8; 32]);
    assert_eq!(j.digest(), back.digest());
}

#[test]
fn journal_with_unknown_result_code_is_refused() {
    let enc = journal(7).encode();
    let mut bad = enc.clone();
    // the result code is the last byte of the first word of the tuple
    bad[32 + 31] = 9;
    assert!(VerifierJournal::decode(&bad).is_err());
}

#[test]
fn batch_round_trips() {
    let input = BatchVerifierInput { verifier_vk: [3; 32], outputs: vec![journal(1), journal(2)] };
    let enc = input.encode();
    let back = BatchVerifierInput::decode(&enc).unwrap();
    assert_eq!(back.verifier_vk, [3; 32]);
    assert_eq!(back.outputs.len(), 2);
    assert!(same_journal(&back.outputs[0], &input.outputs[0]));
    assert!(same_journal(&back.outputs[1], &input.outputs[1]));
    let out = BatchVerifierJournal { verifier_vk: [3; 32], outputs: vec![journal(1), journal(2)] };
    assert_eq!(out.encode(), enc);
    let back2 = BatchVerifierJournal::decode(&enc).unwrap();
    assert!(same_journal(&back2.outputs[1], &journal(2)));
}

fn raw(tag: u8) -> RawProof {
    RawProof { encoded_proof: vec![tag; 4], journal: journal(tag).encode() }
}

#[test]
fn aggregation_keeps_input_order() {
    let ab = aggregate_input([8; 32], &vec![raw(1), raw(2)]).unwrap();
    let ba = aggregate_input([8; 32], &vec![raw(2), raw(1)]).unwrap();
    assert!(same_journal(&ab.outputs[0], &journal(1)));
    assert!(same_journal(&ab.outputs[1], &journal(2)));
    assert!(same_journal(&ba.outputs[0], &journal(2)));
    assert!(same_journal(&ba.outputs[1], &journal(1)));
    assert_eq!(ab.verifier_vk, [8; 32]);
    let out = aggregator_journal(ab);
    assert_eq!(out.outputs.len(), 2);
    let bad = RawProof { encoded_proof: vec![], journal: vec![1, 2, 3] };
    assert_eq!(aggregate_input([8; 32], &vec![raw(1), bad]).unwrap_err(), AttestError::AbiDecode);
}

fn summary(ts: u64) -> ReportSummary {
    ReportSummary { timestamp: ts, cert_digests: vec![[1; 32], [2; 32]] }
}

const NOW: u64 = 1_700_000_000;
const PID: ProgramId = ProgramId { verifier_id: [1; 32], verifier_proof_id: [2; 32], aggregator_id: [3; 32] };

#[test]
fn prepare_without_contract_uses_root_only_trust() {
    let cfg = ProverConfig::risc0();
    let p = prepare_verifier_inputs(&cfg, vec![vec![1, 2]], &vec![summary(NOW * 1000)], &PID, None, NOW).unwrap();
    assert_eq!(p.inputs.len(), 1);
    assert_eq!(p.inputs[0].trusted_certs_prefix_len, 1);
    assert_eq!(p.inputs[0].attestation_report, vec![1, 2]);
    assert_eq!(p.warnings, vec![ProverWarning::NoContract]);
    assert_eq!(DEFAULT_MAX_TIME_DIFF, 10800);
}

#[test]
fn prepare_refuses_report_stale_by_four_hours() {
    let cfg = ProverConfig::sp1();
    let ts = (NOW - 4 * 3600) * 1000;
    let r = prepare_verifier_inputs(&cfg, vec![vec![1]], &vec![summary(ts)], &PID, None, NOW);
    assert_eq!(r.err().unwrap(), AttestError::TimeValidity(0));
}

#[test]
fn prepare_with_skipped_time_check_warns() {
    let mut cfg = ProverConfig::sp1();
    cfg.skip_time_validity_check = true;
    let ts = (NOW - 4 * 3600) * 1000;
    let p = prepare_verifier_inputs(&cfg, vec![vec![1]], &vec![summary(ts)], &PID, None, NOW).unwrap();
    assert_eq!(p.inputs.len(), 1);
    assert_eq!(p.warnings, vec![ProverWarning::NoContract, ProverWarning::StaleReport(0, 4 * 3600)]);
}

#[test]
fn prepare_with_contract_uses_its_answers() {
    let cfg = ProverConfig::risc0();
    let zk = ZkCoProcessorConfig { verifier_id: [1; 32], verifier_proof_id: [2; 32], aggregator_id: [3; 32] };
    let answers = ContractAnswers { zk_config: zk, max_time_diff: 60, prefix_lengths: vec![2, 3] };
    let p = prepare_verifier_inputs(&cfg, vec![vec![1], vec![2]], &vec![summary(NOW * 1000), summary(NOW * 1000 - 30_000)], &PID, Some(answers.clone()), NOW).unwrap();
    assert_eq!(p.inputs[0].trusted_certs_prefix_len, 2);
    assert_eq!(p.inputs[1].trusted_certs_prefix_len, 3);
    assert!(p.warnings.is_empty());
    let old = prepare_verifier_inputs(&cfg, vec![vec![1], vec![2]], &vec![summary(NOW * 1000), summary(NOW * 1000 - 61_000)], &PID, Some(answers.clone()), NOW);
    assert_eq!(old.err().unwrap(), AttestError::TimeValidity(1));
    let mismatch = ContractAnswers { zk_config: ZkCoProcessorConfig { aggregator_id: [9; 32], ..zk }, ..answers.clone() };
    let r = prepare_verifier_inputs(&cfg, vec![vec![1], vec![2]], &vec![summary(NOW * 1000), summary(NOW * 1000)], &PID, Some(mismatch.clone()), NOW);
    assert_eq!(r.err().unwrap(), AttestError::ContractMismatch);
    let mut skip = cfg.clone();
    skip.skip_contract_program_id_check = true;
    let p = prepare_verifier_inputs(&skip, vec![vec![1], vec![2]], &vec![summary(NOW * 1000), summary(NOW * 1000)], &PID, Some(mismatch), NOW).unwrap();
    assert_eq!(p.warnings, vec![ProverWarning::ProgramIdMismatch]);
    let short = ContractAnswers { prefix_lengths: vec![1], ..answers };
    let r = prepare_verifier_inputs(&cfg, vec![vec![1], vec![2]], &vec![summary(NOW * 1000), summary(NOW * 1000)], &PID, Some(short), NOW);
    assert_eq!(r.err().unwrap(), AttestError::ContractInvariant);
}

#[test]
fn chain_of_nine_certs_is_refused_by_cache_query() {
    assert_eq!(check_cert_cache_query(&vec![vec![[0u8; 32]; 9]]), Err(AttestError::ContractInvariant));
    assert_eq!(check_cert_cache_query(&vec![vec![]]), Err(AttestError::ContractInvariant));
    assert_eq!(check_cert_cache_query(&vec![vec![[0u8; 32]; 8], vec![[1u8; 32]]]), Ok(()));
    assert_eq!(check_cert_cache_query(&vec![]), Ok(()));
}

#[test]
fn cached_prefix_is_the_trusted_leading_run() {
    let chain = vec![[1u8; 32], [2; 32], [3; 32], [4; 32]];
    assert_eq!(trusted_prefix_len(&chain, &[9; 32], &vec![[2; 32]]), 0);
    assert_eq!(trusted_prefix_len(&chain, &[1; 32], &vec![]), 1);
    assert_eq!(trusted_prefix_len(&chain, &[1; 32], &vec![[2; 32], [4; 32]]), 2);
    assert_eq!(trusted_prefix_len(&chain, &[1; 32], &vec![[4; 32], [3; 32], [2; 32]]), 4);
}

#[test]
fn program_id_check() {
    let same = ZkCoProcessorConfig { verifier_id: [1; 32], verifier_proof_id: [2; 32], aggregator_id: [3; 32] };
    assert_eq!(PID.verify(&same), Ok(()));
    let other = ZkCoProcessorConfig { verifier_proof_id: [7; 32], ..same };
    assert_eq!(PID.verify(&other), Err(AttestError::ContractMismatch));
}

#[test]
fn sp1_onchain_bytes() {
    let vk = [1u8, 2, 3, 4, 5, 6];
    assert_eq!(sp1_onchain_proof(Sp1ProofKind::Groth16, b"0xabCD", &vk).unwrap(), vec![1, 2, 3, 4, 0xab, 0xcd]);
    assert_eq!(sp1_onchain_proof(Sp1ProofKind::Plonk, b"00ff", &vk).unwrap(), vec![1, 2, 3, 4, 0x00, 0xff]);
    assert_eq!(sp1_onchain_proof(Sp1ProofKind::Groth16, b"", &vk).unwrap(), Vec::<u8>::new());
    assert_eq!(sp1_onchain_proof(Sp1ProofKind::Compressed, b"abcd", &vk).unwrap(), Vec::<u8>::new());
    assert_eq!(sp1_onchain_proof(Sp1ProofKind::Groth16, b"abc", &vk).unwrap_err(), AttestError::HexDecode);
    assert_eq!(sp1_onchain_proof(Sp1ProofKind::Groth16, b"zz", &vk).unwrap_err(), AttestError::HexDecode);
}

#[test]
fn onchain_route_needs_proof_bytes() {
    assert_eq!(onchain_route(ProofType::Aggregator, &[1]), Ok(ProofType::Aggregator));
    assert_eq!(onchain_route(ProofType::Verifier, &[]), Err(AttestError::NotOnchainProof));
}

#[test]
fn config_defaults_and_remote_settings() {
    let c = ProverConfig::risc0();
    assert_eq!(c.default_trusted_certs_prefix_length, 1);
    assert!(!c.skip_time_validity_check);
    assert!(!c.skip_contract_program_id_check);
    assert_eq!(RemoteProverConfig::from_system(&c.system).unwrap_err(), AttestError::MissingRemoteConfig);
    let s = ProverConfig::sp1_with(SP1ProverConfig { private_key: Some("k".into()), rpc_url: Some("u".into()) });
    let r = RemoteProverConfig::from_system(&s.system).unwrap();
    assert_eq!((r.api_url.as_str(), r.api_key.as_str()), ("u", "k"));
    let z = ProverConfig::risc0_with(RiscZeroProverConfig { api_url: Some("a".into()), api_key: None });
    assert!(matches!(z.system, ProverSystemConfig::RiscZero(_)));
    assert!(RemoteProverConfig::from_system(&z.system).is_err());
}
