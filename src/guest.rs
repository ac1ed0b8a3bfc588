//! The guest programs: the verifier, from an input to its journal, and the
//! aggregator, which repeats the journals it checked.

use vstd::prelude::*;

use crate::cert::CertView;
use crate::chain::{ders_of, path_digests};
use crate::doc::{opt_view, sorted_by_index, lemma_doc_pcrs_sorted, DocView};
use crate::error::AttestError;
use crate::report::{authenticate_spec, report_of, AttestationReport};
use crate::schema::{
    all_zero, pcrs_view, JournalView, Pcr, VerificationResult, VerifierInput,
    VerifierJournal,
};

verus! {

/// The PCRs whose value is not all zero, in their order.
pub open spec fn nonzero_pcrs(s: Seq<(u64, Seq<u8>)>) -> Seq<(u64, Seq<u8>)>
    decreases s.len(),
{
    if s.len() == 0 {
        Seq::empty()
    } else if all_zero(s.last().1) {
        nonzero_pcrs(s.drop_last())
    } else {
        nonzero_pcrs(s.drop_last()).push(s.last())
    }
}

/// An absent byte string becomes an empty one.
pub open spec fn bytes_or_empty(o: Option<Seq<u8>>) -> Seq<u8> {
    match o {
        Some(v) => v,
        None => Seq::empty(),
    }
}

/// The journal of a report that authenticated with chain `cs`.
pub open spec fn journal_of(prefix: u8, d: DocView, cs: Seq<CertView>) -> JournalView {
    JournalView {
        result: VerificationResult::Success,
        certs: path_digests(ders_of(cs)),
        trusted_certs_prefix_len: prefix,
        user_data: bytes_or_empty(d.user_data),
        nonce: bytes_or_empty(d.nonce),
        public_key: bytes_or_empty(d.public_key),
        pcrs: nonzero_pcrs(d.pcrs),
        module_id: d.module_id,
        timestamp: d.timestamp,
    }
}

/// What the verifier guest commits for a report and a trusted prefix: the
/// report is authenticated at the document's own time, in seconds.
pub open spec fn verify_report_spec(prefix: u8, report: Seq<u8>) -> Result<JournalView, AttestError> {
    match report_of(report) {
        Err(e) => Err(e),
        Ok(r) => match authenticate_spec(r, prefix as nat, (r.doc.timestamp / 1000) as int) {
            Err(e) => Err(e),
            Ok(cs) => Ok(journal_of(prefix, r.doc, cs)),
        },
    }
}

fn get_option_bytes(val: &Option<Vec<u8>>) -> (r: Vec<u8>)
    ensures
        r@ == bytes_or_empty(opt_view(*val)),
{
    match val {
        Some(v) => {
            let r = crate::cbor::slice_to_vec(v.as_slice(), 0, v.len());
            assert(r@ =~= v@);
            r
        },
        None => Vec::new(),
    }
}

fn nonzero_pcrs_exec(pcrs: &Vec<Pcr>) -> (r: Vec<Pcr>)
    ensures
        pcrs_view(r@) == nonzero_pcrs(pcrs_view(pcrs@)),
{
    let ghost all = pcrs_view(pcrs@);
    let mut out: Vec<Pcr> = Vec::new();
    let mut i: usize = 0;
    proof {
        assert(all.take(0) =~= Seq::<(u64, Seq<u8>)>::empty());
        assert(pcrs_view(out@) =~= Seq::<(u64, Seq<u8>)>::empty());
    }
    while i < pcrs.len()
        invariant
            i <= pcrs.len(),
            all == pcrs_view(pcrs@),
            all.len() == pcrs@.len(),
            pcrs_view(out@) == nonzero_pcrs(all.take(i as int)),
        decreases pcrs.len() - i,
    {
        let p = pcrs[i];
        proof {
            assert(all.take(i + 1).drop_last() =~= all.take(i as int));
            assert(all.take(i + 1).last() == all[i as int]);
        }
        if !p.value.is_zero() {
            let ghost prev = out@;
            out.push(p);
            proof {
                assert(pcrs_view(out@) =~= pcrs_view(prev).push(all[i as int]));
            }
        }
        i = i + 1;
    }
    proof {
        assert(all.take(i as int) =~= all);
    }
    out
}

/// Runs the verification of one report as the verifier guest does: parse,
/// authenticate at the document's time, and build the journal.
pub fn verify_attestation_report(input: &VerifierInput) -> (r: Result<VerifierJournal, AttestError>)
    ensures
        match verify_report_spec(input.trusted_certs_prefix_len, input.attestation_report@) {
            Ok(j) => r matches Ok(x) && x@ == j,
            Err(e) => r matches Err(x) && x == e,
        },
{
    let report = AttestationReport::parse(input.attestation_report.as_slice())?;
    let doc = report.doc();
    let cert_chain = report.authenticate(input.trusted_certs_prefix_len as usize, doc.timestamp / 1000)?;
    let user_data = get_option_bytes(&doc.user_data);
    let nonce = get_option_bytes(&doc.nonce);
    let public_key = get_option_bytes(&doc.public_key);
    let pcrs = nonzero_pcrs_exec(&doc.pcrs);
    let mut certs: Vec<[u8; 32]> = Vec::new();
    let mut i: usize = 0;
    while i < cert_chain.path_digest.len()
        invariant
            i <= cert_chain.path_digest.len(),
            certs@ == cert_chain.path_digest@.take(i as int),
        decreases cert_chain.path_digest.len() - i,
    {
        certs.push(cert_chain.path_digest[i]);
        proof {
            assert(certs@ =~= cert_chain.path_digest@.take(i + 1));
        }
        i = i + 1;
    }
    proof {
        assert(certs@ =~= cert_chain.path_digest@);
    }
    let module_id = doc.module_id.clone();
    Ok(
        VerifierJournal {
            result: VerificationResult::Success,
            certs,
            trusted_certs_prefix_len: input.trusted_certs_prefix_len,
            user_data,
            nonce,
            public_key,
            pcrs,
            module_id,
            timestamp: doc.timestamp,
        },
    )
}

proof fn lemma_contains_push(s: Seq<(u64, Seq<u8>)>, a: (u64, Seq<u8>), x: (u64, Seq<u8>))
    ensures
        s.push(a).contains(x) <==> (s.contains(x) || x == a),
{
    if s.contains(x) {
        let j = choose|j: int| 0 <= j < s.len() && s[j] == x;
        assert(s.push(a)[j] == x);
    }
    if x == a {
        assert(s.push(a)[s.len() as int] == x);
    }
    if s.push(a).contains(x) {
        let j = choose|j: int| 0 <= j < s.len() + 1 && s.push(a)[j] == x;
        if j < s.len() {
            assert(s[j] == x);
        }
    }
}

proof fn lemma_nonzero_members(s: Seq<(u64, Seq<u8>)>)
    ensures
        forall|x: (u64, Seq<u8>)| nonzero_pcrs(s).contains(x) <==> (s.contains(x) && !all_zero(x.1)),
        forall|i: int| 0 <= i < nonzero_pcrs(s).len() ==> s.contains(#[trigger] nonzero_pcrs(s)[i]),
    decreases s.len(),
{
    if s.len() > 0 {
        let t = s.drop_last();
        lemma_nonzero_members(t);
        assert(s =~= t.push(s.last()));
        assert forall|x: (u64, Seq<u8>)| nonzero_pcrs(s).contains(x) <==> (s.contains(x) && !all_zero(x.1)) by {
            lemma_contains_push(t, s.last(), x);
            lemma_contains_push(nonzero_pcrs(t), s.last(), x);
        }
        assert forall|i: int| 0 <= i < nonzero_pcrs(s).len() implies s.contains(#[trigger] nonzero_pcrs(s)[i]) by {
            if i < nonzero_pcrs(t).len() {
                assert(nonzero_pcrs(s)[i] == nonzero_pcrs(t)[i]);
                assert(t.contains(nonzero_pcrs(t)[i]));
                let j = choose|j: int| 0 <= j < t.len() && t[j] == nonzero_pcrs(t)[i];
                assert(s[j] == t[j]);
            } else {
                assert(s[s.len() - 1] == s.last());
            }
        }
    }
}

proof fn lemma_nonzero_sorted(s: Seq<(u64, Seq<u8>)>)
    requires
        sorted_by_index(s),
    ensures
        sorted_by_index(nonzero_pcrs(s)),
    decreases s.len(),
{
    if s.len() > 0 {
        let t = s.drop_last();
        lemma_nonzero_sorted(t);
        lemma_nonzero_members(t);
        let f = nonzero_pcrs(s);
        if !all_zero(s.last().1) {
            assert forall|i: int, j: int| 0 <= i < j < f.len() implies f[i].0 < f[j].0 by {
                if j == f.len() - 1 {
                    let x = nonzero_pcrs(t)[i];
                    assert(t.contains(x));
                    let k = choose|k: int| 0 <= k < t.len() && t[k] == x;
                    assert(s[k] == x);
                }
            }
        }
    }
}

/// The journal of a successful verification lists exactly the document's
/// PCRs whose value is not all zero, in strictly increasing index order.
pub proof fn lemma_journal_pcrs(prefix: u8, report: Seq<u8>)
    requires
        verify_report_spec(prefix, report) is Ok,
    ensures
        ({
            let j = verify_report_spec(prefix, report)->Ok_0;
            let d = (report_of(report)->Ok_0).doc;
            &&& sorted_by_index(j.pcrs)
            &&& forall|x: (u64, Seq<u8>)| j.pcrs.contains(x) <==> (d.pcrs.contains(x) && !all_zero(x.1))
        }),
{
    let d = (report_of(report)->Ok_0).doc;
    let c = crate::cose::cose_of(report)->Some_0;
    lemma_doc_pcrs_sorted(c.payload);
    lemma_nonzero_sorted(d.pcrs);
    lemma_nonzero_members(d.pcrs);
}

/// Fields the document leaves out appear in the journal as empty byte
/// strings.
pub proof fn lemma_absent_fields_empty(prefix: u8, report: Seq<u8>)
    requires
        verify_report_spec(prefix, report) is Ok,
    ensures
        ({
            let j = verify_report_spec(prefix, report)->Ok_0;
            let d = (report_of(report)->Ok_0).doc;
            &&& d.user_data is None ==> j.user_data.len() == 0
            &&& d.nonce is None ==> j.nonce.len() == 0
            &&& d.public_key is None ==> j.public_key.len() == 0
        }),
{
}

/// A report that parses yields its document's timestamp field, and the
/// journal of a successful verification carries that timestamp.
pub proof fn lemma_journal_timestamp(prefix: u8, report: Seq<u8>)
    requires
        verify_report_spec(prefix, report) is Ok,
    ensures
        (verify_report_spec(prefix, report)->Ok_0).timestamp == (report_of(report)->Ok_0).doc.timestamp,
        (verify_report_spec(prefix, report)->Ok_0).trusted_certs_prefix_len == prefix,
{
}

} // verus!
