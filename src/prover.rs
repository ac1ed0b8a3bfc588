//! The host-side decisions around proving: configuration, the policy that
//! gates reports before proving, the batch handed to the aggregator, and the
//! certificate-cache rules of the verifier contract.

use vstd::prelude::*;

use crate::abi::{abi_journal_decoded, journal_of_parts};
use crate::chain::{certs_of, ders_of, path_digests};
use crate::error::AttestError;
use crate::report::{chain_ders, report_of, AttestationReport};
use crate::schema::{
    bytes_equal, digests_view, BatchVerifierInput, JournalView, VerifierInput, VerifierJournal,
    ZkCoProcessorType,
};

verus! {

/// Seconds a report may age when no contract says otherwise.
pub const DEFAULT_MAX_TIME_DIFF: u64 = 10800;

/// The longest certificate chain the verifier contract accepts.
pub const MAX_CHAIN_LEN: usize = 8;

/// Remote proving settings of the RISC Zero backend.
#[derive(Debug, Clone)]
pub struct RiscZeroProverConfig {
    pub api_url: Option<String>,
    pub api_key: Option<String>,
}

/// Remote proving settings of the SP1 backend.
#[derive(Debug, Clone)]
pub struct SP1ProverConfig {
    pub private_key: Option<String>,
    pub rpc_url: Option<String>,
}

/// Which backend proves, with its settings.
#[derive(Debug, Clone)]
pub enum ProverSystemConfig {
    Succinct(SP1ProverConfig),
    RiscZero(RiscZeroProverConfig),
}

/// Endpoint and credential of a remote proving service.
#[derive(Debug, Clone)]
pub struct RemoteProverConfig {
    pub api_url: String,
    pub api_key: String,
}

/// The prover's policy and backend.
#[derive(Debug, Clone)]
pub struct ProverConfig {
    /// Prefix length used for every report when there is no contract.
    pub default_trusted_certs_prefix_length: u8,
    pub skip_time_validity_check: bool,
    pub skip_contract_program_id_check: bool,
    pub system: ProverSystemConfig,
}

/// The policy a configuration starts with: root-only trust, no checks
/// skipped.
pub open spec fn default_policy(c: ProverConfig) -> bool {
    &&& c.default_trusted_certs_prefix_length == 1
    &&& !c.skip_time_validity_check
    &&& !c.skip_contract_program_id_check
}

impl ProverConfig {
    /// RISC Zero with no remote settings and the default policy.
    pub fn risc0() -> (r: ProverConfig)
        ensures
            default_policy(r),
            r.system matches ProverSystemConfig::RiscZero(c) && c.api_url is None && c.api_key is None,
    {
        ProverConfig::risc0_with(RiscZeroProverConfig { api_url: None, api_key: None })
    }

    /// RISC Zero with the given settings and the default policy.
    pub fn risc0_with(cfg: RiscZeroProverConfig) -> (r: ProverConfig)
        ensures
            default_policy(r),
            r.system == ProverSystemConfig::RiscZero(cfg),
    {
        ProverConfig {
            default_trusted_certs_prefix_length: 1,
            skip_time_validity_check: false,
            skip_contract_program_id_check: false,
            system: ProverSystemConfig::RiscZero(cfg),
        }
    }

    /// SP1 with no remote settings and the default policy.
    pub fn sp1() -> (r: ProverConfig)
        ensures
            default_policy(r),
            r.system matches ProverSystemConfig::Succinct(c) && c.private_key is None && c.rpc_url is None,
    {
        ProverConfig::sp1_with(SP1ProverConfig { private_key: None, rpc_url: None })
    }

    /// SP1 with the given settings and the default policy.
    pub fn sp1_with(cfg: SP1ProverConfig) -> (r: ProverConfig)
        ensures
            default_policy(r),
            r.system == ProverSystemConfig::Succinct(cfg),
    {
        ProverConfig {
            default_trusted_certs_prefix_length: 1,
            skip_time_validity_check: false,
            skip_contract_program_id_check: false,
            system: ProverSystemConfig::Succinct(cfg),
        }
    }

    /// The backend's kind.
    pub fn zk_type(&self) -> (r: ZkCoProcessorType)
        ensures
            r == (match self.system {
                ProverSystemConfig::Succinct(_) => ZkCoProcessorType::Succinct,
                ProverSystemConfig::RiscZero(_) => ZkCoProcessorType::RiscZero,
            }),
    {
        match &self.system {
            ProverSystemConfig::Succinct(_) => ZkCoProcessorType::Succinct,
            ProverSystemConfig::RiscZero(_) => ZkCoProcessorType::RiscZero,
        }
    }
}

impl RemoteProverConfig {
    /// The remote settings of a backend, when both endpoint and credential
    /// are given.
    pub fn from_system(system: &ProverSystemConfig) -> (r: Result<RemoteProverConfig, AttestError>)
        ensures
            match system {
                ProverSystemConfig::RiscZero(c) => match (c.api_url, c.api_key) {
                    (Some(u), Some(k)) => r matches Ok(x) && x.api_url@ == u@ && x.api_key@ == k@,
                    _ => r == Err::<RemoteProverConfig, AttestError>(AttestError::MissingRemoteConfig),
                },
                ProverSystemConfig::Succinct(c) => match (c.rpc_url, c.private_key) {
                    (Some(u), Some(k)) => r matches Ok(x) && x.api_url@ == u@ && x.api_key@ == k@,
                    _ => r == Err::<RemoteProverConfig, AttestError>(AttestError::MissingRemoteConfig),
                },
            },
    {
        let (u, k) = match system {
            ProverSystemConfig::RiscZero(c) => (&c.api_url, &c.api_key),
            ProverSystemConfig::Succinct(c) => (&c.rpc_url, &c.private_key),
        };
        match (u, k) {
            (Some(u), Some(k)) => Ok(RemoteProverConfig { api_url: u.clone(), api_key: k.clone() }),
            _ => Err(AttestError::MissingRemoteConfig),
        }
    }
}

/// The identifiers of the guest programs: the verifier's, the one the
/// aggregator uses to check verifier proofs, and the aggregator's.
#[derive(Debug, Clone, Copy)]
pub struct ProgramId {
    pub verifier_id: [u8; 32],
    pub verifier_proof_id: [u8; 32],
    pub aggregator_id: [u8; 32],
}

/// The program identifiers that the contract holds for a backend.
#[derive(Debug, Clone, Copy)]
pub struct ZkCoProcessorConfig {
    pub verifier_id: [u8; 32],
    pub verifier_proof_id: [u8; 32],
    pub aggregator_id: [u8; 32],
}

/// All three identifiers agree.
pub open spec fn ids_match(p: ProgramId, c: ZkCoProcessorConfig) -> bool {
    &&& p.verifier_id@ == c.verifier_id@
    &&& p.verifier_proof_id@ == c.verifier_proof_id@
    &&& p.aggregator_id@ == c.aggregator_id@
}

impl ProgramId {
    /// Checks the local identifiers against the contract's.
    pub fn verify(&self, zk_config: &ZkCoProcessorConfig) -> (r: Result<(), AttestError>)
        ensures
            r == (if ids_match(*self, *zk_config) {
                Ok::<(), AttestError>(())
            } else {
                Err(AttestError::ContractMismatch)
            }),
    {
        if bytes_equal(zk_config.aggregator_id.as_slice(), self.aggregator_id.as_slice())
            && bytes_equal(zk_config.verifier_id.as_slice(), self.verifier_id.as_slice())
            && bytes_equal(zk_config.verifier_proof_id.as_slice(), self.verifier_proof_id.as_slice()) {
            Ok(())
        } else {
            Err(AttestError::ContractMismatch)
        }
    }
}

/// What the prover needs from a parsed report before talking to the
/// contract: its time in milliseconds and the path digests of its chain.
#[derive(Debug, Clone)]
pub struct ReportSummary {
    pub timestamp: u64,
    pub cert_digests: Vec<[u8; 32]>,
}

/// The summary of one raw report.
pub open spec fn summary_of(b: Seq<u8>) -> Result<(u64, Seq<Seq<u8>>), AttestError> {
    match report_of(b) {
        Err(e) => Err(e),
        Ok(r) => match certs_of(chain_ders(r.doc)) {
            Err(e) => Err(e),
            Ok(cs) => Ok((r.doc.timestamp, path_digests(ders_of(cs)))),
        },
    }
}

/// Summaries of raw reports in order; the first report that fails decides.
pub open spec fn summaries_of(bs: Seq<Seq<u8>>) -> Result<Seq<(u64, Seq<Seq<u8>>)>, AttestError>
    decreases bs.len(),
{
    if bs.len() == 0 {
        Ok(Seq::empty())
    } else {
        match summaries_of(bs.drop_last()) {
            Err(e) => Err(e),
            Ok(ss) => match summary_of(bs.last()) {
                Err(e) => Err(e),
                Ok(s) => Ok(ss.push(s)),
            },
        }
    }
}

proof fn lemma_summaries_err(bs: Seq<Seq<u8>>, j: int)
    requires
        0 <= j <= bs.len(),
        summaries_of(bs.take(j)) is Err,
    ensures
        summaries_of(bs) == summaries_of(bs.take(j)),
    decreases bs.len() - j,
{
    if j < bs.len() {
        assert(bs.take(j + 1).drop_last() =~= bs.take(j));
        lemma_summaries_err(bs, j + 1);
    } else {
        assert(bs.take(j) =~= bs);
    }
}

pub open spec fn summaries_view(s: Seq<ReportSummary>) -> Seq<(u64, Seq<Seq<u8>>)> {
    s.map_values(|x: ReportSummary| (x.timestamp, digests_view(x.cert_digests@)))
}

/// Parses every report and collects its time and chain digests.
pub fn summarize_reports(raw_reports: &Vec<Vec<u8>>) -> (r: Result<Vec<ReportSummary>, AttestError>)
    ensures
        match summaries_of(raw_reports@.map_values(|b: Vec<u8>| b@)) {
            Ok(ss) => r matches Ok(x) && summaries_view(x@) == ss,
            Err(e) => r == Err::<Vec<ReportSummary>, AttestError>(e),
        },
{
    let ghost all = raw_reports@.map_values(|b: Vec<u8>| b@);
    let mut out: Vec<ReportSummary> = Vec::new();
    let mut i: usize = 0;
    proof {
        assert(all.take(0) =~= Seq::<Seq<u8>>::empty());
        assert(summaries_view(out@) =~= Seq::<(u64, Seq<Seq<u8>>)>::empty());
    }
    while i < raw_reports.len()
        invariant
            i <= raw_reports.len(),
            all == raw_reports@.map_values(|b: Vec<u8>| b@),
            summaries_of(all.take(i as int)) == Ok::<Seq<(u64, Seq<Seq<u8>>)>, AttestError>(summaries_view(out@)),
        decreases raw_reports.len() - i,
    {
        proof {
            assert(all.take(i + 1).drop_last() =~= all.take(i as int));
            assert(all.take(i + 1).last() == raw_reports@[i as int]@);
        }
        let report = match AttestationReport::parse(raw_reports[i].as_slice()) {
            Ok(x) => x,
            Err(e) => {
                proof {
                    lemma_summaries_err(all, i + 1);
                }
                return Err(e);
            },
        };
        let chain = match report.cert_chain() {
            Ok(c) => c,
            Err(e) => {
                proof {
                    lemma_summaries_err(all, i + 1);
                }
                return Err(e);
            },
        };
        let mut digests: Vec<[u8; 32]> = Vec::new();
        let mut k: usize = 0;
        while k < chain.path_digest.len()
            invariant
                k <= chain.path_digest.len(),
                digests@ == chain.path_digest@.take(k as int),
            decreases chain.path_digest.len() - k,
        {
            digests.push(chain.path_digest[k]);
            proof {
                assert(digests@ =~= chain.path_digest@.take(k + 1));
            }
            k = k + 1;
        }
        proof {
            assert(digests@ =~= chain.path_digest@);
        }
        let ghost prev = out@;
        out.push(ReportSummary { timestamp: report.doc.timestamp, cert_digests: digests });
        proof {
            assert(summaries_view(out@) =~= summaries_view(prev).push(summaries_view(out@).last()));
        }
        i = i + 1;
    }
    proof {
        assert(all.take(i as int) =~= all);
    }
    Ok(out)
}

/// What the verifier contract answered for a batch of reports.
#[derive(Debug, Clone)]
pub struct ContractAnswers {
    /// Its program identifiers for this backend.
    pub zk_config: ZkCoProcessorConfig,
    /// How old a report may be, in seconds.
    pub max_time_diff: u64,
    /// The trusted prefix length of each report's chain.
    pub prefix_lengths: Vec<u8>,
}

/// Something the prover let pass but that the caller should hear of.
#[derive(Debug, Clone, Copy, PartialEq, Eq, Structural)]
pub enum ProverWarning {
    /// No contract was given: prefixes and the time limit are defaults.
    NoContract,
    /// The contract's program identifiers differ and the check is skipped.
    ProgramIdMismatch,
    /// The report at this index was signed this many seconds ago, beyond
    /// the limit, and the check is skipped.
    StaleReport(usize, u64),
}

/// A report signed at `ts_ms` milliseconds is too old at `now` seconds.
pub open spec fn is_stale(ts_ms: u64, max_time_diff: u64, now: u64) -> bool {
    ts_ms / 1000 + max_time_diff < now
}

/// Applies the time limit to reports from index `i` on: with the check
/// skipped each stale report gives a warning, otherwise the first stale
/// report is an error.
pub open spec fn time_scan(stamps: Seq<u64>, max: u64, now: u64, skip: bool, i: nat) -> Result<Seq<ProverWarning>, AttestError>
    decreases stamps.len() - i,
{
    if i >= stamps.len() {
        Ok(Seq::empty())
    } else if is_stale(stamps[i as int], max, now) {
        if skip {
            match time_scan(stamps, max, now, skip, i + 1) {
                Ok(ws) => Ok(seq![ProverWarning::StaleReport(i as usize, (now - stamps[i as int] / 1000) as u64)] + ws),
                Err(e) => Err(e),
            }
        } else {
            Err(AttestError::TimeValidity(i as usize))
        }
    } else {
        time_scan(stamps, max, now, skip, i + 1)
    }
}

/// The inputs and warnings that preparing a batch gives, or its error.
pub struct Prepared {
    pub inputs: Vec<VerifierInput>,
    pub warnings: Vec<ProverWarning>,
}

/// The prefix length, time limit and warnings before the time check.
pub open spec fn contract_policy(cfg: ProverConfig, n: nat, local: ProgramId, contract: Option<ContractAnswers>) -> Result<(Seq<u8>, u64, Seq<ProverWarning>), AttestError> {
    match contract {
        None => Ok((Seq::new(n, |i: int| cfg.default_trusted_certs_prefix_length), DEFAULT_MAX_TIME_DIFF, seq![ProverWarning::NoContract])),
        Some(c) => if ids_match(local, c.zk_config) {
            Ok((c.prefix_lengths@, c.max_time_diff, Seq::empty()))
        } else if cfg.skip_contract_program_id_check {
            Ok((c.prefix_lengths@, c.max_time_diff, seq![ProverWarning::ProgramIdMismatch]))
        } else {
            Err(AttestError::ContractMismatch)
        },
    }
}

/// The outcome of preparing verifier inputs for reports signed at `stamps`
/// (milliseconds) at `now` (seconds): `Ok` holds each report's prefix
/// length, in order, and the warnings.
pub open spec fn prepare_spec(cfg: ProverConfig, stamps: Seq<u64>, local: ProgramId, contract: Option<ContractAnswers>, now: u64) -> Result<(Seq<u8>, Seq<ProverWarning>), AttestError> {
    match contract_policy(cfg, stamps.len(), local, contract) {
        Err(e) => Err(e),
        Ok((prefixes, max, ws)) => match time_scan(stamps, max, now, cfg.skip_time_validity_check, 0) {
            Err(e) => Err(e),
            Ok(ws2) => if prefixes.len() != stamps.len() {
                Err(AttestError::ContractInvariant)
            } else {
                Ok((prefixes, ws + ws2))
            },
        },
    }
}

/// Gates a batch of reports by policy and pairs each with its trusted
/// prefix length. `summaries` are those of `raw_reports`, `contract` what
/// the verifier contract answered (if there is one), `now` the current time
/// in seconds.
pub fn prepare_verifier_inputs(
    cfg: &ProverConfig,
    raw_reports: Vec<Vec<u8>>,
    summaries: &Vec<ReportSummary>,
    local: &ProgramId,
    contract: Option<ContractAnswers>,
    now: u64,
) -> (r: Result<Prepared, AttestError>)
    requires
        summaries@.len() == raw_reports@.len(),
    ensures
        match prepare_spec(*cfg, summaries@.map_values(|s: ReportSummary| s.timestamp), *local, contract, now) {
            Ok((prefixes, ws)) => r matches Ok(p) && p.warnings@ == ws && p.inputs@.len() == raw_reports@.len()
                && forall|i: int| 0 <= i < raw_reports@.len() ==> (#[trigger] p.inputs@[i]).trusted_certs_prefix_len == prefixes[i]
                && p.inputs@[i].attestation_report@ == raw_reports@[i]@,
            Err(e) => r == Err::<Prepared, AttestError>(e),
        },
{
    let n = raw_reports.len();
    let ghost stamps = summaries@.map_values(|s: ReportSummary| s.timestamp);
    let mut warnings: Vec<ProverWarning> = Vec::new();
    let (prefixes, max_time_diff) = match contract {
        None => {
            warnings.push(ProverWarning::NoContract);
            let mut v: Vec<u8> = Vec::new();
            let mut i: usize = 0;
            while i < n
                invariant
                    i <= n,
                    v@ == Seq::new(i as nat, |k: int| cfg.default_trusted_certs_prefix_length),
                decreases n - i,
            {
                v.push(cfg.default_trusted_certs_prefix_length);
                proof {
                    assert(v@ =~= Seq::new((i + 1) as nat, |k: int| cfg.default_trusted_certs_prefix_length));
                }
                i = i + 1;
            }
            (v, DEFAULT_MAX_TIME_DIFF)
        },
        Some(c) => {
            match local.verify(&c.zk_config) {
                Ok(()) => {},
                Err(e) => {
                    if cfg.skip_contract_program_id_check {
                        warnings.push(ProverWarning::ProgramIdMismatch);
                    } else {
                        return Err(e);
                    }
                },
            }
            (c.prefix_lengths, c.max_time_diff)
        },
    };
    let ghost ws0 = warnings@;
    proof {
        let pol = contract_policy(*cfg, stamps.len(), *local, contract);
        assert(pol == Ok::<(Seq<u8>, u64, Seq<ProverWarning>), AttestError>((prefixes@, max_time_diff, ws0))) by {
            if contract is None {
                assert(ws0 =~= seq![ProverWarning::NoContract]);
            } else if !ids_match(*local, (contract->Some_0).zk_config) {
                assert(ws0 =~= seq![ProverWarning::ProgramIdMismatch]);
            } else {
                assert(ws0 =~= Seq::<ProverWarning>::empty());
            }
        }
    }
    let mut i: usize = 0;
    let skip = cfg.skip_time_validity_check;
    while i < n
        invariant
            i <= n,
            n == summaries@.len(),
            stamps == summaries@.map_values(|s: ReportSummary| s.timestamp),
            warnings@.len() >= ws0.len(),
            warnings@.take(ws0.len() as int) == ws0,
            skip == cfg.skip_time_validity_check,
            contract_policy(*cfg, stamps.len(), *local, contract) == Ok::<(Seq<u8>, u64, Seq<ProverWarning>), AttestError>((prefixes@, max_time_diff, ws0)),
            time_scan(stamps, max_time_diff, now, skip, 0) == match time_scan(stamps, max_time_diff, now, skip, i as nat) {
                Ok(rest) => Ok(warnings@.skip(ws0.len() as int) + rest),
                Err(e) => Err::<Seq<ProverWarning>, AttestError>(e),
            },
        decreases n - i,
    {
        let ts = summaries[i].timestamp;
        assert(stamps[i as int] == ts);
        let stale = (ts / 1000) as u128 + (max_time_diff as u128) < now as u128;
        if stale {
            if skip {
                let ghost prev = warnings@;
                warnings.push(ProverWarning::StaleReport(i, now - ts / 1000));
                proof {
                    assert(warnings@.take(ws0.len() as int) =~= prev.take(ws0.len() as int));
                    assert(warnings@.skip(ws0.len() as int) =~= prev.skip(ws0.len() as int).push(warnings@.last()));
                    let rest = time_scan(stamps, max_time_diff, now, skip, (i + 1) as nat);
                    if rest is Ok {
                        let r = rest->Ok_0;
                        assert(prev.skip(ws0.len() as int) + (seq![warnings@.last()] + r) =~= warnings@.skip(ws0.len() as int) + r);
                    }
                }
            } else {
                return Err(AttestError::TimeValidity(i));
            }
        }
        i = i + 1;
    }
    if prefixes.len() != n {
        return Err(AttestError::ContractInvariant);
    }
    proof {
        assert(warnings@.skip(ws0.len() as int) + Seq::<ProverWarning>::empty() =~= warnings@.skip(ws0.len() as int));
        assert(ws0 + warnings@.skip(ws0.len() as int) =~= warnings@);
    }
    let mut inputs: Vec<VerifierInput> = Vec::new();
    let mut rest = raw_reports;
    let ghost raws = rest@;
    while rest.len() > 0
        invariant
            inputs@.len() + rest@.len() == n,
            raws.len() == n,
            prefixes@.len() == n,
            forall|k: int| 0 <= k < rest@.len() ==> #[trigger] rest@[k] == raws[inputs@.len() + k],
            forall|k: int| 0 <= k < inputs@.len() ==> (#[trigger] inputs@[k]).trusted_certs_prefix_len == prefixes@[k]
                && inputs@[k].attestation_report@ == raws[k]@,
        decreases rest.len(),
    {
        let k = inputs.len();
        let ghost before = rest@;
        let report = rest.remove(0);
        proof {
            assert forall|j: int| 0 <= j < rest@.len() implies #[trigger] rest@[j] == raws[k + 1 + j] by {
                assert(rest@[j] == before[j + 1]);
            }
        }
        inputs.push(VerifierInput { trusted_certs_prefix_len: prefixes[k], attestation_report: report });
    }
    Ok(Prepared { inputs, warnings })
}

/// A proof as the backend returns it: its opaque encoding and its journal
/// in ABI bytes.
#[derive(Debug, Clone)]
pub struct RawProof {
    pub encoded_proof: Vec<u8>,
    pub journal: Vec<u8>,
}

/// The kinds of proof a backend produces.
#[derive(Debug, Clone, Copy, PartialEq, Eq, Structural)]
pub enum RawProofType {
    Groth16,
    Composite,
}

/// Which contract call checks an on-chain proof.
#[derive(Debug, Clone, Copy, PartialEq, Eq, Structural)]
pub enum ProofType {
    Verifier,
    Aggregator,
}

impl RawProof {
    /// Decodes the journal of a verifier proof.
    pub fn decode_journal(&self) -> (r: Result<VerifierJournal, AttestError>)
        ensures
            match abi_journal_decoded(self.journal@) {
                Some(p) => match journal_of_parts(p) {
                    Some(j) => r matches Ok(x) && x@ == j,
                    None => r == Err::<VerifierJournal, AttestError>(AttestError::AbiDecode),
                },
                None => r == Err::<VerifierJournal, AttestError>(AttestError::AbiDecode),
            },
    {
        VerifierJournal::decode(self.journal.as_slice())
    }
}

/// The journal that a proof's bytes decode to.
pub open spec fn decoded_journal(b: Seq<u8>) -> Option<JournalView> {
    match abi_journal_decoded(b) {
        Some(p) => journal_of_parts(p),
        None => None,
    }
}

/// Builds the aggregator's input from inner verifier proofs: their
/// journals, in the order of the proofs, under the verifier's proof
/// identifier. The proofs' encodings go with it as assumptions.
pub fn aggregate_input(verifier_vk: [u8; 32], proofs: &Vec<RawProof>) -> (r: Result<BatchVerifierInput, AttestError>)
    ensures
        match r {
            Ok(b) => b.verifier_vk == verifier_vk && b.outputs@.len() == proofs@.len()
                && forall|i: int| 0 <= i < proofs@.len() ==> decoded_journal(proofs@[i].journal@) == Some((#[trigger] b.outputs@[i])@),
            Err(e) => e == AttestError::AbiDecode && exists|i: int| 0 <= i < proofs@.len() && decoded_journal(#[trigger] proofs@[i].journal@) is None,
        },
        (forall|i: int| 0 <= i < proofs@.len() ==> decoded_journal(#[trigger] proofs@[i].journal@) is Some) ==> r is Ok,
{
    let mut journals: Vec<VerifierJournal> = Vec::new();
    let mut i: usize = 0;
    while i < proofs.len()
        invariant
            i <= proofs.len(),
            journals@.len() == i,
            forall|k: int| 0 <= k < i ==> decoded_journal(proofs@[k].journal@) == Some((#[trigger] journals@[k])@),
        decreases proofs.len() - i,
    {
        let j = match proofs[i].decode_journal() {
            Ok(j) => j,
            Err(e) => {
                assert(decoded_journal(proofs@[i as int].journal@) is None);
                return Err(e);
            },
        };
        journals.push(j);
        i = i + 1;
    }
    Ok(BatchVerifierInput { verifier_vk, outputs: journals })
}

/// What the aggregator guest commits: the batch it checked, verbatim.
pub fn aggregator_journal(input: BatchVerifierInput) -> (r: crate::schema::BatchVerifierJournal)
    ensures
        r.verifier_vk == input.verifier_vk,
        r.outputs@ == input.outputs@,
{
    crate::schema::BatchVerifierJournal { verifier_vk: input.verifier_vk, outputs: input.outputs }
}

/// Checks the chains handed to the contract's certificate cache: each must
/// hold between one and `MAX_CHAIN_LEN` digests.
pub fn check_cert_cache_query(certs_digests: &Vec<Vec<[u8; 32]>>) -> (r: Result<(), AttestError>)
    ensures
        r is Ok <==> forall|i: int| 0 <= i < certs_digests@.len() ==> 1 <= (#[trigger] certs_digests@[i])@.len() <= MAX_CHAIN_LEN,
        r is Err ==> r == Err::<(), AttestError>(AttestError::ContractInvariant),
{
    let mut i: usize = 0;
    while i < certs_digests.len()
        invariant
            i <= certs_digests.len(),
            forall|k: int| 0 <= k < i ==> 1 <= (#[trigger] certs_digests@[k])@.len() <= MAX_CHAIN_LEN,
        decreases certs_digests.len() - i,
    {
        let len = certs_digests[i].len();
        if len == 0 || len > MAX_CHAIN_LEN {
            return Err(AttestError::ContractInvariant);
        }
        i = i + 1;
    }
    Ok(())
}

/// Whether `d` is among `trusted`.
pub open spec fn is_trusted(trusted: Seq<[u8; 32]>, d: [u8; 32]) -> bool {
    exists|j: int| 0 <= j < trusted.len() && trusted[j]@ == d@
}

fn contains_digest(trusted: &Vec<[u8; 32]>, d: &[u8; 32]) -> (r: bool)
    ensures
        r == is_trusted(trusted@, *d),
{
    let mut j: usize = 0;
    while j < trusted.len()
        invariant
            j <= trusted.len(),
            forall|k: int| 0 <= k < j ==> trusted@[k]@ != d@,
        decreases trusted.len() - j,
    {
        if bytes_equal(trusted[j].as_slice(), d.as_slice()) {
            return true;
        }
        j = j + 1;
    }
    false
}

/// The trusted prefix length of a chain of path digests: zero unless the
/// first digest is the root's; otherwise one for the root, plus the length
/// of the leading run of later digests that are all in the cache.
pub fn trusted_prefix_len(chain: &Vec<[u8; 32]>, root: &[u8; 32], trusted: &Vec<[u8; 32]>) -> (k: usize)
    ensures
        k <= chain@.len(),
        k > 0 ==> chain@[0]@ == root@,
        (chain@.len() > 0 && chain@[0]@ == root@) ==> k > 0,
        forall|i: int| 1 <= i < k ==> is_trusted(trusted@, #[trigger] chain@[i]),
        0 < k < chain@.len() ==> !is_trusted(trusted@, chain@[k as int]),
{
    if chain.len() == 0 || !bytes_equal(chain[0].as_slice(), root.as_slice()) {
        return 0;
    }
    let mut k: usize = 1;
    while k < chain.len() && contains_digest(trusted, &chain[k])
        invariant
            1 <= k <= chain@.len(),
            forall|i: int| 1 <= i < k ==> is_trusted(trusted@, #[trigger] chain@[i]),
        decreases chain.len() - k,
    {
        k = k + 1;
    }
    k
}

/// The kinds of SP1 proof.
#[derive(Debug, Clone, Copy, PartialEq, Eq, Structural)]
pub enum Sp1ProofKind {
    Core,
    Compressed,
    Plonk,
    Groth16,
}

/// Value of a hex digit.
pub open spec fn hex_digit(c: u8) -> Option<u8> {
    if 0x30 <= c <= 0x39 {
        Some((c - 0x30) as u8)
    } else if 0x61 <= c <= 0x66 {
        Some((c - 0x61 + 10) as u8)
    } else if 0x41 <= c <= 0x46 {
        Some((c - 0x41 + 10) as u8)
    } else {
        None
    }
}

/// Bytes of a string of hex digit pairs.
pub open spec fn hex_pairs(s: Seq<u8>) -> Option<Seq<u8>>
    decreases s.len(),
{
    if s.len() == 0 {
        Some(Seq::empty())
    } else if s.len() == 1 {
        None
    } else {
        match (hex_digit(s[0]), hex_digit(s[1]), hex_pairs(s.skip(2))) {
            (Some(h), Some(l), Some(rest)) => Some(seq![(h * 16 + l) as u8] + rest),
            _ => None,
        }
    }
}

/// Bytes of hex text, with an optional `0x` or `0X` prefix.
pub open spec fn hex_decoded(s: Seq<u8>) -> Option<Seq<u8>> {
    if s.len() % 2 != 0 {
        None
    } else if s.len() >= 2 && s[0] == 0x30 && (s[1] == 0x78 || s[1] == 0x58) {
        hex_pairs(s.skip(2))
    } else {
        hex_pairs(s)
    }
}

/// Relies on alloy_primitives::hex::decode (const-hex): odd length or a
/// non-hex digit is an error; a leading `0x` or `0X` is skipped; each digit
/// pair gives one byte.
#[verifier::external_body]
fn hex_decode(s: &[u8]) -> (r: Option<Vec<u8>>)
    ensures
        match hex_decoded(s@) {
            Some(v) => r matches Some(w) && w@ == v,
            None => r is None,
        },
{
    alloy_primitives::hex::decode(s).ok()
}

/// The bytes the contract takes for an SP1 proof: for Groth16 and Plonk the
/// first four bytes of the verifying-key hash followed by the decoded proof,
/// empty when the proof is empty; empty for the kinds that are not final.
pub fn sp1_onchain_proof(kind: Sp1ProofKind, encoded_proof: &[u8], vkey_hash: &[u8]) -> (r: Result<Vec<u8>, AttestError>)
    requires
        vkey_hash@.len() >= 4,
    ensures
        match kind {
            Sp1ProofKind::Core | Sp1ProofKind::Compressed => r matches Ok(v) && v@.len() == 0,
            _ => if encoded_proof@.len() == 0 {
                r matches Ok(v) && v@.len() == 0
            } else {
                match hex_decoded(encoded_proof@) {
                    Some(p) => r matches Ok(v) && v@ == vkey_hash@.take(4) + p,
                    None => r == Err::<Vec<u8>, AttestError>(AttestError::HexDecode),
                }
            },
        },
{
    match kind {
        Sp1ProofKind::Core | Sp1ProofKind::Compressed => Ok(Vec::new()),
        _ => {
            if encoded_proof.len() == 0 {
                return Ok(Vec::new());
            }
            let p = match hex_decode(encoded_proof) {
                Some(p) => p,
                None => return Err(AttestError::HexDecode),
            };
            let mut out: Vec<u8> = Vec::new();
            out.push(vkey_hash[0]);
            out.push(vkey_hash[1]);
            out.push(vkey_hash[2]);
            out.push(vkey_hash[3]);
            crate::cbor::push_bytes(&mut out, p.as_slice());
            assert(out@ =~= vkey_hash@.take(4) + p@);
            Ok(out)
        },
    }
}

/// The contract call that checks an on-chain proof, refusing a proof with
/// no on-chain bytes.
pub fn onchain_route(proof_type: ProofType, onchain_proof: &[u8]) -> (r: Result<ProofType, AttestError>)
    ensures
        onchain_proof@.len() == 0 ==> r == Err::<ProofType, AttestError>(AttestError::NotOnchainProof),
        onchain_proof@.len() > 0 ==> r == Ok::<ProofType, AttestError>(proof_type),
{
    if onchain_proof.len() == 0 {
        return Err(AttestError::NotOnchainProof);
    }
    Ok(proof_type)
}


/// The chain digests the host sends to the certificate cache for a report
/// are exactly those that the report's journal commits to, so a prefix the
/// cache reports for them speaks of the journal's own leading certificates.
pub proof fn lemma_cache_query_matches_journal(prefix: u8, report: Seq<u8>)
    requires
        crate::guest::verify_report_spec(prefix, report) is Ok,
    ensures
        summary_of(report) is Ok,
        (summary_of(report)->Ok_0).1 == (crate::guest::verify_report_spec(prefix, report)->Ok_0).certs,
        (summary_of(report)->Ok_0).0 == (crate::guest::verify_report_spec(prefix, report)->Ok_0).timestamp,
{
}

} // verus!
