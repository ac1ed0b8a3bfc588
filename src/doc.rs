//! The attestation document carried as the payload of the COSE envelope,
//! and the report that holds both.

use vstd::prelude::*;

use crate::cbor::{bstr_at, head, lemma_head_next, lemma_skip_bounds, read_bstr, read_head, skip, skip_items, slice_to_vec};
use crate::error::AttestError;
use crate::schema::{pcrs_view, Bytes48, Pcr};

verus! {

pub uninterp spec fn utf8_text(b: Seq<u8>) -> Option<Seq<char>>;

/// Relies on String::from_utf8: `None` unless the bytes are UTF-8, else the
/// text they encode.
#[verifier::external_body]
fn decode_utf8(b: Vec<u8>) -> (r: Option<String>)
    ensures
        match r {
            Some(s) => utf8_text(b@) == Some(s@),
            None => utf8_text(b@) is None,
        },
{
    String::from_utf8(b).ok()
}

/// Which document field a map key names; 0 for a key the document ignores.
pub open spec fn key_id(k: Seq<u8>) -> u8 {
    if k == seq![0x6du8, 0x6f, 0x64, 0x75, 0x6c, 0x65, 0x5f, 0x69, 0x64] {
        1
    } else if k == seq![0x74u8, 0x69, 0x6d, 0x65, 0x73, 0x74, 0x61, 0x6d, 0x70] {
        2
    } else if k == seq![0x64u8, 0x69, 0x67, 0x65, 0x73, 0x74] {
        3
    } else if k == seq![0x70u8, 0x63, 0x72, 0x73] {
        4
    } else if k == seq![0x63u8, 0x65, 0x72, 0x74, 0x69, 0x66, 0x69, 0x63, 0x61, 0x74, 0x65] {
        5
    } else if k == seq![0x63u8, 0x61, 0x62, 0x75, 0x6e, 0x64, 0x6c, 0x65] {
        6
    } else if k == seq![0x70u8, 0x75, 0x62, 0x6c, 0x69, 0x63, 0x5f, 0x6b, 0x65, 0x79] {
        7
    } else if k == seq![0x75u8, 0x73, 0x65, 0x72, 0x5f, 0x64, 0x61, 0x74, 0x61] {
        8
    } else if k == seq![0x6eu8, 0x6f, 0x6e, 0x63, 0x65] {
        9
    } else {
        0
    }
}

fn bytes_eq_at(b: &[u8], s: usize, e: usize, lit: &[u8]) -> (r: bool)
    requires
        s <= e <= b.len(),
    ensures
        r == (b@.subrange(s as int, e as int) == lit@),
{
    if e - s != lit.len() {
        return false;
    }
    let mut i: usize = 0;
    while i < lit.len()
        invariant
            s <= e <= b.len(),
            e - s == lit.len(),
            i <= lit.len(),
            forall|j: int| 0 <= j < i ==> b@[s + j] == lit@[j],
        decreases lit.len() - i,
    {
        if b[s + i] != lit[i] {
            assert(b@.subrange(s as int, e as int)[i as int] != lit@[i as int]);
            return false;
        }
        i = i + 1;
    }
    assert(b@.subrange(s as int, e as int) =~= lit@);
    true
}

fn key_id_of(b: &[u8], s: usize, e: usize) -> (r: u8)
    requires
        s <= e <= b.len(),
    ensures
        r == key_id(b@.subrange(s as int, e as int)),
{
    let l1: [u8; 9] = [0x6du8, 0x6f, 0x64, 0x75, 0x6c, 0x65, 0x5f, 0x69, 0x64];
    if bytes_eq_at(b, s, e, l1.as_slice()) {
        return 1;
    }
    let l2: [u8; 9] = [0x74u8, 0x69, 0x6d, 0x65, 0x73, 0x74, 0x61, 0x6d, 0x70];
    if bytes_eq_at(b, s, e, l2.as_slice()) {
        return 2;
    }
    let l3: [u8; 6] = [0x64u8, 0x69, 0x67, 0x65, 0x73, 0x74];
    if bytes_eq_at(b, s, e, l3.as_slice()) {
        return 3;
    }
    let l4: [u8; 4] = [0x70u8, 0x63, 0x72, 0x73];
    if bytes_eq_at(b, s, e, l4.as_slice()) {
        return 4;
    }
    let l5: [u8; 11] = [0x63u8, 0x65, 0x72, 0x74, 0x69, 0x66, 0x69, 0x63, 0x61, 0x74, 0x65];
    if bytes_eq_at(b, s, e, l5.as_slice()) {
        return 5;
    }
    let l6: [u8; 8] = [0x63u8, 0x61, 0x62, 0x75, 0x6e, 0x64, 0x6c, 0x65];
    if bytes_eq_at(b, s, e, l6.as_slice()) {
        return 6;
    }
    let l7: [u8; 10] = [0x70u8, 0x75, 0x62, 0x6c, 0x69, 0x63, 0x5f, 0x6b, 0x65, 0x79];
    if bytes_eq_at(b, s, e, l7.as_slice()) {
        return 7;
    }
    let l8: [u8; 9] = [0x75u8, 0x73, 0x65, 0x72, 0x5f, 0x64, 0x61, 0x74, 0x61];
    if bytes_eq_at(b, s, e, l8.as_slice()) {
        return 8;
    }
    let l9: [u8; 5] = [0x6eu8, 0x6f, 0x6e, 0x63, 0x65];
    if bytes_eq_at(b, s, e, l9.as_slice()) {
        return 9;
    }
    0
}

/// `s` with `(k, v)` put in its place by index: an entry with the same
/// index is replaced, otherwise the entry goes before the first larger index.
pub open spec fn pcr_insert(s: Seq<(u64, Seq<u8>)>, k: u64, v: Seq<u8>) -> Seq<(u64, Seq<u8>)>
    decreases s.len(),
{
    if s.len() == 0 {
        seq![(k, v)]
    } else if k < s[0].0 {
        seq![(k, v)] + s
    } else if k == s[0].0 {
        seq![(k, v)] + s.drop_first()
    } else {
        seq![s[0]] + pcr_insert(s.drop_first(), k, v)
    }
}

/// Indices strictly increase.
pub open spec fn sorted_by_index(s: Seq<(u64, Seq<u8>)>) -> bool {
    forall|i: int, j: int| 0 <= i < j < s.len() ==> s[i].0 < s[j].0
}

proof fn lemma_pcr_insert_skip(s: Seq<(u64, Seq<u8>)>, k: u64, v: Seq<u8>, i: int)
    requires
        0 <= i <= s.len(),
        forall|j: int| 0 <= j < i ==> s[j].0 < k,
    ensures
        pcr_insert(s, k, v) == s.take(i) + pcr_insert(s.skip(i), k, v),
    decreases i,
{
    if i > 0 {
        lemma_pcr_insert_skip(s.drop_first(), k, v, i - 1);
        assert(s.drop_first().skip(i - 1) =~= s.skip(i));
        assert(seq![s[0]] + s.drop_first().take(i - 1) =~= s.take(i));
    } else {
        assert(s.skip(0) =~= s);
    }
}

/// Inserting keeps indices strictly increasing.
pub proof fn lemma_pcr_insert_sorted(s: Seq<(u64, Seq<u8>)>, k: u64, v: Seq<u8>)
    requires
        sorted_by_index(s),
    ensures
        sorted_by_index(pcr_insert(s, k, v)),
        forall|i: int| 0 <= i < pcr_insert(s, k, v).len() ==> (pcr_insert(s, k, v)[i].0 == k
            || exists|j: int| 0 <= j < s.len() && s[j].0 == pcr_insert(s, k, v)[i].0),
    decreases s.len(),
{
    if s.len() > 0 && k > s[0].0 {
        let t = s.drop_first();
        lemma_pcr_insert_sorted(t, k, v);
        let r = pcr_insert(s, k, v);
        assert forall|i: int| 0 <= i < r.len() implies (r[i].0 == k || exists|j: int|
            0 <= j < s.len() && s[j].0 == r[i].0) by {
            if i > 0 {
                let x = pcr_insert(t, k, v)[i - 1];
                if x.0 != k {
                    let j = choose|j: int| 0 <= j < t.len() && t[j].0 == x.0;
                    assert(s[j + 1].0 == r[i].0);
                }
            }
        }
        assert forall|i: int, j: int| 0 <= i < j < r.len() implies r[i].0 < r[j].0 by {
            if i == 0 {
                let x = pcr_insert(t, k, v)[j - 1];
                if x.0 != k {
                    let jj = choose|jj: int| 0 <= jj < t.len() && t[jj].0 == x.0;
                    assert(s[jj + 1].0 == x.0);
                }
            }
        }
    } else if s.len() > 0 && k == s[0].0 {
        let r = pcr_insert(s, k, v);
        assert forall|i: int| 0 <= i < r.len() implies (r[i].0 == k || exists|j: int|
            0 <= j < s.len() && s[j].0 == r[i].0) by {
            if i > 0 {
                assert(s[i].0 == r[i].0);
            }
        }
    } else if s.len() > 0 {
        let r = pcr_insert(s, k, v);
        assert forall|i: int| 0 <= i < r.len() implies (r[i].0 == k || exists|j: int|
            0 <= j < s.len() && s[j].0 == r[i].0) by {
            if i > 0 {
                assert(s[i - 1].0 == r[i].0);
            }
        }
    }
}

fn pcr_insert_exec(s: &Vec<Pcr>, k: u64, v: Bytes48) -> (r: Vec<Pcr>)
    ensures
        pcrs_view(r@) == pcr_insert(pcrs_view(s@), k, v@),
{
    let ghost sv = pcrs_view(s@);
    let mut out: Vec<Pcr> = Vec::new();
    let mut i: usize = 0;
    while i < s.len() && s[i].index < k
        invariant
            i <= s.len(),
            sv == pcrs_view(s@),
            sv.len() == s@.len(),
            out@.len() == i,
            pcrs_view(out@) == sv.take(i as int),
            forall|j: int| 0 <= j < i ==> sv[j].0 < k,
        decreases s.len() - i,
    {
        let ghost prev = out@;
        let x = s[i];
        out.push(x);
        proof {
            assert(out@ == prev.push(s@[i as int]));
            assert(pcrs_view(out@)[i as int] == sv[i as int]);
            assert(pcrs_view(out@) =~= sv.take(i + 1));
        }
        i = i + 1;
    }
    proof {
        lemma_pcr_insert_skip(sv, k, v@, i as int);
    }
    let ghost before = pcrs_view(out@);
    assert(before.len() == i);
    out.push(Pcr { index: k, value: v });
    let mut j: usize = if i < s.len() && s[i].index == k {
        i + 1
    } else {
        i
    };
    proof {
        let t = sv.skip(i as int);
        if i < s.len() {
            assert(t[0] == sv[i as int]);
            if s[i as int].index == k {
                assert(t.drop_first() =~= sv.skip(j as int));
            } else {
                assert(t =~= sv.skip(j as int));
            }
        } else {
            assert(t =~= sv.skip(j as int));
        }
        assert(pcr_insert(sv, k, v@) == before + seq![(k, v@)] + sv.skip(j as int));
    }
    let ghost j0 = j;
    while j < s.len()
        invariant
            j0 <= j <= s.len(),
            sv == pcrs_view(s@),
            sv.len() == s@.len(),
            out@.len() == before.len() + 1 + (j - j0),
            before.len() == i,
            pcrs_view(out@) == before + seq![(k, v@)] + sv.subrange(j0 as int, j as int),
        decreases s.len() - j,
    {
        let ghost prev = out@;
        let x = s[j];
        out.push(x);
        proof {
            assert(out@ == prev.push(s@[j as int]));
            assert(pcrs_view(out@).last() == sv[j as int]);
            assert(pcrs_view(out@) =~= pcrs_view(prev).push(sv[j as int]));
            assert(pcrs_view(out@) =~= before + seq![(k, v@)] + sv.subrange(j0 as int, j + 1));
        }
        j = j + 1;
    }
    proof {
        assert(sv.subrange(j0 as int, j as int) =~= sv.skip(j0 as int));
        assert(pcrs_view(out@) =~= before + seq![(k, v@)] + sv.skip(j0 as int));
    }
    out
}

/// An unsigned integer item at `pos`.
pub open spec fn uint_value(b: Seq<u8>, pos: nat) -> Option<(u64, nat)> {
    match head(b, pos) {
        Some((m, a, nx)) => if m == 0 {
            Some((a as u64, nx))
        } else {
            None
        },
        None => None,
    }
}

/// A UTF-8 text item at `pos`.
pub open spec fn text_value(b: Seq<u8>, pos: nat) -> Option<(Seq<char>, nat)> {
    match head(b, pos) {
        Some((m, a, nx)) => if m == 3 && nx + a <= b.len() {
            match utf8_text(b.subrange(nx as int, (nx + a) as int)) {
                Some(t) => Some((t, nx + a)),
                None => None,
            }
        } else {
            None
        },
        None => None,
    }
}

/// A byte string item, or null / undefined for an absent value.
pub open spec fn opt_bytes_value(b: Seq<u8>, pos: nat) -> Option<(Option<Seq<u8>>, nat)> {
    match head(b, pos) {
        Some((m, a, nx)) => if m == 7 && (a == 22 || a == 23) {
            Some((None, nx))
        } else {
            match bstr_at(b, pos) {
                Some((v, e)) => Some((Some(v), e)),
                None => None,
            }
        },
        None => None,
    }
}

/// `n` byte string items from `pos`, appended to `acc`.
pub open spec fn bstr_list(b: Seq<u8>, pos: nat, n: nat, acc: Seq<Seq<u8>>) -> Option<(Seq<Seq<u8>>, nat)>
    decreases n,
{
    if n == 0 {
        Some((acc, pos))
    } else {
        match bstr_at(b, pos) {
            Some((v, e)) => bstr_list(b, e, (n - 1) as nat, acc.push(v)),
            None => None,
        }
    }
}

/// An array of byte strings at `pos`.
pub open spec fn bstr_array_value(b: Seq<u8>, pos: nat) -> Option<(Seq<Seq<u8>>, nat)> {
    match head(b, pos) {
        Some((m, n, nx)) => if m == 4 {
            bstr_list(b, nx, n, Seq::empty())
        } else {
            None
        },
        None => None,
    }
}

/// `n` PCR entries (index, 48-byte value) from `pos`, put into `acc`.
pub open spec fn pcr_list(b: Seq<u8>, pos: nat, n: nat, acc: Seq<(u64, Seq<u8>)>) -> Option<(Seq<(u64, Seq<u8>)>, nat)>
    decreases n,
{
    if n == 0 {
        Some((acc, pos))
    } else {
        match uint_value(b, pos) {
            Some((k, at1)) => match bstr_at(b, at1) {
                Some((v, e)) => if v.len() == 48 {
                    pcr_list(b, e, (n - 1) as nat, pcr_insert(acc, k, v))
                } else {
                    None
                },
                None => None,
            },
            None => None,
        }
    }
}

/// The PCR map at `pos`, ordered by index.
pub open spec fn pcr_map_value(b: Seq<u8>, pos: nat) -> Option<(Seq<(u64, Seq<u8>)>, nat)> {
    match head(b, pos) {
        Some((m, n, nx)) => if m == 5 {
            pcr_list(b, nx, n, Seq::empty())
        } else {
            None
        },
        None => None,
    }
}

fn read_uint(b: &[u8], pos: usize) -> (r: Option<(u64, usize)>)
    ensures
        uint_value(b@, pos as nat) == match r {
            Some((v, e)) => Some((v, e as nat)),
            None => None::<(u64, nat)>,
        },
{
    match read_head(b, pos) {
        Some(h) => if h.major == 0 {
            Some((h.arg, h.next))
        } else {
            None
        },
        None => None,
    }
}

fn read_text(b: &[u8], pos: usize) -> (r: Option<(String, usize)>)
    ensures
        text_value(b@, pos as nat) == match r {
            Some((v, e)) => Some((v@, e as nat)),
            None => None::<(Seq<char>, nat)>,
        },
{
    let h = match read_head(b, pos) {
        Some(h) => h,
        None => return None,
    };
    if h.major != 3 || h.arg > (b.len() - h.next) as u64 {
        return None;
    }
    let end = h.next + h.arg as usize;
    let raw = slice_to_vec(b, h.next, end);
    match decode_utf8(raw) {
        Some(t) => Some((t, end)),
        None => None,
    }
}

fn read_opt_bytes(b: &[u8], pos: usize) -> (r: Option<(Option<Vec<u8>>, usize)>)
    ensures
        opt_bytes_value(b@, pos as nat) == match r {
            Some((Some(v), e)) => Some((Some(v@), e as nat)),
            Some((None, e)) => Some((None, e as nat)),
            None => None::<(Option<Seq<u8>>, nat)>,
        },
{
    let h = match read_head(b, pos) {
        Some(h) => h,
        None => return None,
    };
    if h.major == 7 && (h.arg == 22 || h.arg == 23) {
        return Some((None, h.next));
    }
    match read_bstr(b, pos) {
        Some((v, e)) => Some((Some(v), e)),
        None => None,
    }
}

/// The view of a list of byte strings.
pub open spec fn vecs_view(v: Seq<Vec<u8>>) -> Seq<Seq<u8>> {
    v.map_values(|x: Vec<u8>| x@)
}

fn read_bstr_array(b: &[u8], pos: usize) -> (r: Option<(Vec<Vec<u8>>, usize)>)
    ensures
        bstr_array_value(b@, pos as nat) == match r {
            Some((v, e)) => Some((vecs_view(v@), e as nat)),
            None => None::<(Seq<Seq<u8>>, nat)>,
        },
{
    let h = match read_head(b, pos) {
        Some(h) => h,
        None => return None,
    };
    if h.major != 4 {
        return None;
    }
    let mut out: Vec<Vec<u8>> = Vec::new();
    let mut p = h.next;
    let mut n = h.arg;
    proof {
        assert(vecs_view(out@) =~= Seq::<Seq<u8>>::empty());
    }
    while n > 0
        invariant
            bstr_array_value(b@, pos as nat) == bstr_list(b@, h.next as nat, h.arg as nat, Seq::empty()),
            bstr_list(b@, h.next as nat, h.arg as nat, Seq::empty()) == bstr_list(b@, p as nat, n as nat, vecs_view(out@)),
        decreases n,
    {
        let (v, e) = match read_bstr(b, p) {
            Some(x) => x,
            None => return None,
        };
        let ghost prev = out@;
        out.push(v);
        proof {
            assert(vecs_view(out@) =~= vecs_view(prev).push(out@.last()@));
        }
        p = e;
        n = n - 1;
    }
    Some((out, p))
}

fn read_pcr_map(b: &[u8], pos: usize) -> (r: Option<(Vec<Pcr>, usize)>)
    ensures
        pcr_map_value(b@, pos as nat) == match r {
            Some((v, e)) => Some((pcrs_view(v@), e as nat)),
            None => None::<(Seq<(u64, Seq<u8>)>, nat)>,
        },
{
    let h = match read_head(b, pos) {
        Some(h) => h,
        None => return None,
    };
    if h.major != 5 {
        return None;
    }
    let mut out: Vec<Pcr> = Vec::new();
    let mut p = h.next;
    let mut n = h.arg;
    proof {
        assert(pcrs_view(out@) =~= Seq::<(u64, Seq<u8>)>::empty());
    }
    while n > 0
        invariant
            pcr_map_value(b@, pos as nat) == pcr_list(b@, h.next as nat, h.arg as nat, Seq::empty()),
            pcr_list(b@, h.next as nat, h.arg as nat, Seq::empty()) == pcr_list(b@, p as nat, n as nat, pcrs_view(out@)),
        decreases n,
    {
        let (k, at1) = match read_uint(b, p) {
            Some(x) => x,
            None => return None,
        };
        let (v, e) = match read_bstr(b, at1) {
            Some(x) => x,
            None => return None,
        };
        if v.len() != 48 {
            return None;
        }
        let val = Bytes48::from_slice(v.as_slice());
        out = pcr_insert_exec(&out, k, val);
        p = e;
        n = n - 1;
    }
    Some((out, p))
}


/// The view of an optional byte string.
pub open spec fn opt_view(o: Option<Vec<u8>>) -> Option<Seq<u8>> {
    match o {
        Some(v) => Some(v@),
        None => None,
    }
}

/// The document fields seen so far while reading the map; an optional
/// field that was seen holds `Some(None)` when its value was null.
pub struct DocFields {
    pub module_id: Option<String>,
    pub timestamp: Option<u64>,
    pub digest: Option<String>,
    pub pcrs: Option<Vec<Pcr>>,
    pub certificate: Option<Vec<u8>>,
    pub cabundle: Option<Vec<Vec<u8>>>,
    pub public_key: Option<Option<Vec<u8>>>,
    pub user_data: Option<Option<Vec<u8>>>,
    pub nonce: Option<Option<Vec<u8>>>,
}

pub struct DocFieldsView {
    pub module_id: Option<Seq<char>>,
    pub timestamp: Option<u64>,
    pub digest: Option<Seq<char>>,
    pub pcrs: Option<Seq<(u64, Seq<u8>)>>,
    pub certificate: Option<Seq<u8>>,
    pub cabundle: Option<Seq<Seq<u8>>>,
    pub public_key: Option<Option<Seq<u8>>>,
    pub user_data: Option<Option<Seq<u8>>>,
    pub nonce: Option<Option<Seq<u8>>>,
}

pub open spec fn opt_opt_view(o: Option<Option<Vec<u8>>>) -> Option<Option<Seq<u8>>> {
    match o {
        Some(x) => Some(opt_view(x)),
        None => None,
    }
}

impl View for DocFields {
    type V = DocFieldsView;

    open spec fn view(&self) -> DocFieldsView {
        DocFieldsView {
            module_id: match self.module_id {
                Some(t) => Some(t@),
                None => None,
            },
            timestamp: self.timestamp,
            digest: match self.digest {
                Some(t) => Some(t@),
                None => None,
            },
            pcrs: match self.pcrs {
                Some(p) => Some(pcrs_view(p@)),
                None => None,
            },
            certificate: opt_view(self.certificate),
            cabundle: match self.cabundle {
                Some(c) => Some(vecs_view(c@)),
                None => None,
            },
            public_key: opt_opt_view(self.public_key),
            user_data: opt_opt_view(self.user_data),
            nonce: opt_opt_view(self.nonce),
        }
    }
}

pub open spec fn no_fields() -> DocFieldsView {
    DocFieldsView {
        module_id: None,
        timestamp: None,
        digest: None,
        pcrs: None,
        certificate: None,
        cabundle: None,
        public_key: None,
        user_data: None,
        nonce: None,
    }
}

/// Reads the map entry at `pos` into `acc`. Keys are text; a known key may
/// appear once; values of unknown keys are skipped.
pub open spec fn doc_entry(acc: DocFieldsView, b: Seq<u8>, pos: nat) -> Option<(DocFieldsView, nat)> {
    match head(b, pos) {
        None => None,
        Some((m, a, nx)) => if m != 3 || nx + a > b.len() {
            None
        } else {
            let q = nx + a;
            let id = key_id(b.subrange(nx as int, q as int));
            if id == 1 {
                if acc.module_id is Some { None } else {
                    match text_value(b, q) {
                        Some((t, e)) => Some((DocFieldsView { module_id: Some(t), ..acc }, e)),
                        None => None,
                    }
                }
            } else if id == 2 {
                if acc.timestamp is Some { None } else {
                    match uint_value(b, q) {
                        Some((t, e)) => Some((DocFieldsView { timestamp: Some(t), ..acc }, e)),
                        None => None,
                    }
                }
            } else if id == 3 {
                if acc.digest is Some { None } else {
                    match text_value(b, q) {
                        Some((t, e)) => Some((DocFieldsView { digest: Some(t), ..acc }, e)),
                        None => None,
                    }
                }
            } else if id == 4 {
                if acc.pcrs is Some { None } else {
                    match pcr_map_value(b, q) {
                        Some((t, e)) => Some((DocFieldsView { pcrs: Some(t), ..acc }, e)),
                        None => None,
                    }
                }
            } else if id == 5 {
                if acc.certificate is Some { None } else {
                    match bstr_at(b, q) {
                        Some((t, e)) => Some((DocFieldsView { certificate: Some(t), ..acc }, e)),
                        None => None,
                    }
                }
            } else if id == 6 {
                if acc.cabundle is Some { None } else {
                    match bstr_array_value(b, q) {
                        Some((t, e)) => Some((DocFieldsView { cabundle: Some(t), ..acc }, e)),
                        None => None,
                    }
                }
            } else if id == 7 {
                if acc.public_key is Some { None } else {
                    match opt_bytes_value(b, q) {
                        Some((t, e)) => Some((DocFieldsView { public_key: Some(t), ..acc }, e)),
                        None => None,
                    }
                }
            } else if id == 8 {
                if acc.user_data is Some { None } else {
                    match opt_bytes_value(b, q) {
                        Some((t, e)) => Some((DocFieldsView { user_data: Some(t), ..acc }, e)),
                        None => None,
                    }
                }
            } else if id == 9 {
                if acc.nonce is Some { None } else {
                    match opt_bytes_value(b, q) {
                        Some((t, e)) => Some((DocFieldsView { nonce: Some(t), ..acc }, e)),
                        None => None,
                    }
                }
            } else {
                match skip(b, q, 1) {
                    Some(e) => Some((acc, e)),
                    None => None,
                }
            }
        },
    }
}

/// Reads `n` map entries from `pos`.
pub open spec fn doc_entries(acc: DocFieldsView, b: Seq<u8>, pos: nat, n: nat) -> Option<(DocFieldsView, nat)>
    decreases n,
{
    if n == 0 {
        Some((acc, pos))
    } else {
        match doc_entry(acc, b, pos) {
            Some((acc2, e)) => doc_entries(acc2, b, e, (n - 1) as nat),
            None => None,
        }
    }
}

/// The attestation document.
#[derive(Debug)]
pub struct AttestationDocument {
    pub module_id: String,
    /// Milliseconds since the Unix epoch.
    pub timestamp: u64,
    pub digest: String,
    /// Ordered by index, one entry per index.
    pub pcrs: Vec<Pcr>,
    pub certificate: Vec<u8>,
    /// Intermediate certificates, root first.
    pub cabundle: Vec<Vec<u8>>,
    pub public_key: Option<Vec<u8>>,
    pub user_data: Option<Vec<u8>>,
    pub nonce: Option<Vec<u8>>,
}

pub struct DocView {
    pub module_id: Seq<char>,
    pub timestamp: u64,
    pub digest: Seq<char>,
    pub pcrs: Seq<(u64, Seq<u8>)>,
    pub certificate: Seq<u8>,
    pub cabundle: Seq<Seq<u8>>,
    pub public_key: Option<Seq<u8>>,
    pub user_data: Option<Seq<u8>>,
    pub nonce: Option<Seq<u8>>,
}

impl View for AttestationDocument {
    type V = DocView;

    open spec fn view(&self) -> DocView {
        DocView {
            module_id: self.module_id@,
            timestamp: self.timestamp,
            digest: self.digest@,
            pcrs: pcrs_view(self.pcrs@),
            certificate: self.certificate@,
            cabundle: vecs_view(self.cabundle@),
            public_key: opt_view(self.public_key),
            user_data: opt_view(self.user_data),
            nonce: opt_view(self.nonce),
        }
    }
}

pub open spec fn flatten(o: Option<Option<Seq<u8>>>) -> Option<Seq<u8>> {
    match o {
        Some(x) => x,
        None => None,
    }
}

/// The document once all entries are read: the required fields must be
/// there; optional ones that are missing are absent.
pub open spec fn finish(f: DocFieldsView) -> Option<DocView> {
    if f.module_id is Some && f.timestamp is Some && f.digest is Some && f.pcrs is Some
        && f.certificate is Some && f.cabundle is Some {
        Some(
            DocView {
                module_id: f.module_id->Some_0,
                timestamp: f.timestamp->Some_0,
                digest: f.digest->Some_0,
                pcrs: f.pcrs->Some_0,
                certificate: f.certificate->Some_0,
                cabundle: f.cabundle->Some_0,
                public_key: flatten(f.public_key),
                user_data: flatten(f.user_data),
                nonce: flatten(f.nonce),
            },
        )
    } else {
        None
    }
}

/// The document encoded by `b`: one map and nothing after it.
pub open spec fn doc_of(b: Seq<u8>) -> Option<DocView> {
    match head(b, 0) {
        Some((m, n, at1)) => if m != 5 {
            None
        } else {
            match doc_entries(no_fields(), b, at1, n) {
                Some((f, e)) => if e == b.len() {
                    finish(f)
                } else {
                    None
                },
                None => None,
            }
        },
        None => None,
    }
}

fn read_doc_entry(acc: &mut DocFields, b: &[u8], pos: usize) -> (r: Option<usize>)
    ensures
        match r {
            Some(e) => doc_entry(old(acc)@, b@, pos as nat) == Some((final(acc)@, e as nat)),
            None => doc_entry(old(acc)@, b@, pos as nat) is None,
        },
{
    let h = match read_head(b, pos) {
        Some(h) => h,
        None => return None,
    };
    if h.major != 3 || h.arg > (b.len() - h.next) as u64 {
        return None;
    }
    let q = h.next + h.arg as usize;
    let id = key_id_of(b, h.next, q);
    if id == 1 {
        if acc.module_id.is_some() {
            return None;
        }
        let (t, e) = match read_text(b, q) {
            Some(x) => x,
            None => return None,
        };
        acc.module_id = Some(t);
        Some(e)
    } else if id == 2 {
        if acc.timestamp.is_some() {
            return None;
        }
        let (t, e) = match read_uint(b, q) {
            Some(x) => x,
            None => return None,
        };
        acc.timestamp = Some(t);
        Some(e)
    } else if id == 3 {
        if acc.digest.is_some() {
            return None;
        }
        let (t, e) = match read_text(b, q) {
            Some(x) => x,
            None => return None,
        };
        acc.digest = Some(t);
        Some(e)
    } else if id == 4 {
        if acc.pcrs.is_some() {
            return None;
        }
        let (t, e) = match read_pcr_map(b, q) {
            Some(x) => x,
            None => return None,
        };
        acc.pcrs = Some(t);
        Some(e)
    } else if id == 5 {
        if acc.certificate.is_some() {
            return None;
        }
        let (t, e) = match read_bstr(b, q) {
            Some(x) => x,
            None => return None,
        };
        acc.certificate = Some(t);
        Some(e)
    } else if id == 6 {
        if acc.cabundle.is_some() {
            return None;
        }
        let (t, e) = match read_bstr_array(b, q) {
            Some(x) => x,
            None => return None,
        };
        acc.cabundle = Some(t);
        Some(e)
    } else if id == 7 {
        if acc.public_key.is_some() {
            return None;
        }
        let (t, e) = match read_opt_bytes(b, q) {
            Some(x) => x,
            None => return None,
        };
        acc.public_key = Some(t);
        Some(e)
    } else if id == 8 {
        if acc.user_data.is_some() {
            return None;
        }
        let (t, e) = match read_opt_bytes(b, q) {
            Some(x) => x,
            None => return None,
        };
        acc.user_data = Some(t);
        Some(e)
    } else if id == 9 {
        if acc.nonce.is_some() {
            return None;
        }
        let (t, e) = match read_opt_bytes(b, q) {
            Some(x) => x,
            None => return None,
        };
        acc.nonce = Some(t);
        Some(e)
    } else {
        skip_items(b, q, 1)
    }
}

impl AttestationDocument {
    /// Decodes the document from the envelope's payload.
    pub fn parse(b: &[u8]) -> (r: Result<AttestationDocument, AttestError>)
        ensures
            match doc_of(b@) {
                Some(d) => r matches Ok(x) && x@ == d,
                None => r == Err::<AttestationDocument, AttestError>(AttestError::DocParse),
            },
    {
        let h = match read_head(b, 0) {
            Some(h) => h,
            None => return Err(AttestError::DocParse),
        };
        if h.major != 5 {
            return Err(AttestError::DocParse);
        }
        let mut acc = DocFields {
            module_id: None,
            timestamp: None,
            digest: None,
            pcrs: None,
            certificate: None,
            cabundle: None,
            public_key: None,
            user_data: None,
            nonce: None,
        };
        let mut p = h.next;
        let mut n = h.arg;
        while n > 0
            invariant
                doc_of(b@) == match doc_entries(no_fields(), b@, h.next as nat, h.arg as nat) {
                    Some((f, e)) => if e == b@.len() { finish(f) } else { None },
                    None => None,
                },
                doc_entries(no_fields(), b@, h.next as nat, h.arg as nat) == doc_entries(acc@, b@, p as nat, n as nat),
            decreases n,
        {
            p = match read_doc_entry(&mut acc, b, p) {
                Some(e) => e,
                None => return Err(AttestError::DocParse),
            };
            n = n - 1;
        }
        if p != b.len() {
            return Err(AttestError::DocParse);
        }
        match (acc.module_id, acc.timestamp, acc.digest, acc.pcrs, acc.certificate, acc.cabundle) {
            (Some(module_id), Some(timestamp), Some(digest), Some(pcrs), Some(certificate), Some(cabundle)) => {
                let public_key = match acc.public_key {
                    Some(x) => x,
                    None => None,
                };
                let user_data = match acc.user_data {
                    Some(x) => x,
                    None => None,
                };
                let nonce = match acc.nonce {
                    Some(x) => x,
                    None => None,
                };
                Ok(AttestationDocument { module_id, timestamp, digest, pcrs, certificate, cabundle, public_key, user_data, nonce })
            },
            _ => Err(AttestError::DocParse),
        }
    }
}


proof fn lemma_pcr_list_sorted(b: Seq<u8>, pos: nat, n: nat, acc: Seq<(u64, Seq<u8>)>)
    requires
        sorted_by_index(acc),
    ensures
        pcr_list(b, pos, n, acc) matches Some((s, e)) ==> sorted_by_index(s),
    decreases n,
{
    if n > 0 {
        if let Some((k, at1)) = uint_value(b, pos) {
            if let Some((v, e)) = bstr_at(b, at1) {
                lemma_pcr_insert_sorted(acc, k, v);
                lemma_pcr_list_sorted(b, e, (n - 1) as nat, pcr_insert(acc, k, v));
            }
        }
    }
}

/// The PCRs read so far, if any, are ordered by index.
pub open spec fn pcrs_sorted(f: DocFieldsView) -> bool {
    f.pcrs matches Some(p) ==> sorted_by_index(p)
}

proof fn lemma_doc_entries_sorted(acc: DocFieldsView, b: Seq<u8>, pos: nat, n: nat)
    requires
        pcrs_sorted(acc),
    ensures
        doc_entries(acc, b, pos, n) matches Some((f, e)) ==> pcrs_sorted(f),
    decreases n,
{
    if n > 0 {
        if let Some((acc2, e)) = doc_entry(acc, b, pos) {
            if let Some((m, a, nx)) = head(b, pos) {
                let q = nx + a;
                if m == 3 && nx + a <= b.len() && key_id(b.subrange(nx as int, q as int)) == 4 {
                    if let Some((h4m, h4n, h4nx)) = head(b, q) {
                        lemma_pcr_list_sorted(b, h4nx, h4n, Seq::empty());
                    }
                }
            }
            lemma_doc_entries_sorted(acc2, b, e, (n - 1) as nat);
        }
    }
}

/// A decoded document lists its PCRs in strictly increasing index order.
pub proof fn lemma_doc_pcrs_sorted(b: Seq<u8>)
    requires
        doc_of(b) is Some,
    ensures
        sorted_by_index((doc_of(b)->Some_0).pcrs),
{
    if let Some((m, n, at1)) = head(b, 0) {
        lemma_doc_entries_sorted(no_fields(), b, at1, n);
    }
}


/// The text "timestamp".
pub open spec fn timestamp_key() -> Seq<u8> {
    seq![0x74u8, 0x69, 0x6d, 0x65, 0x73, 0x74, 0x61, 0x6d, 0x70]
}

/// Where the value of the first entry with text key `key` starts, among
/// the `n` map entries from `pos`, walking entries item by item.
pub open spec fn find_value(b: Seq<u8>, pos: nat, n: nat, key: Seq<u8>) -> Option<nat>
    decreases n,
{
    if n == 0 {
        None
    } else {
        match head(b, pos) {
            None => None,
            Some((m, a, nx)) => if m == 3 && nx + a <= b.len() && b.subrange(nx as int, (nx + a) as int) == key {
                Some(nx + a)
            } else {
                match skip(b, pos, 2) {
                    Some(q) => find_value(b, q, (n - 1) as nat, key),
                    None => None,
                }
            },
        }
    }
}

proof fn lemma_bstr_list_skip(b: Seq<u8>, pos: nat, n: nat, acc: Seq<Seq<u8>>)
    requires
        bstr_list(b, pos, n, acc) is Some,
    ensures
        skip(b, pos, n) == Some((bstr_list(b, pos, n, acc)->Some_0).1),
        n <= (bstr_list(b, pos, n, acc)->Some_0).1 - pos,
    decreases n,
{
    if n > 0 {
        lemma_head_next(b, pos);
        let (v, e) = bstr_at(b, pos)->Some_0;
        lemma_bstr_list_skip(b, e, (n - 1) as nat, acc.push(v));
    }
}

proof fn lemma_pcr_list_skip(b: Seq<u8>, pos: nat, n: nat, acc: Seq<(u64, Seq<u8>)>)
    requires
        pcr_list(b, pos, n, acc) is Some,
    ensures
        skip(b, pos, 2 * n) == Some((pcr_list(b, pos, n, acc)->Some_0).1),
        2 * n <= (pcr_list(b, pos, n, acc)->Some_0).1 - pos,
    decreases n,
{
    if n > 0 {
        lemma_head_next(b, pos);
        let (k, p1) = uint_value(b, pos)->Some_0;
        lemma_head_next(b, p1);
        let (v, e) = bstr_at(b, p1)->Some_0;
        lemma_pcr_list_skip(b, e, (n - 1) as nat, pcr_insert(acc, k, v));
        assert(skip(b, p1, (2 * n - 1) as nat) == skip(b, e, (2 * n - 2) as nat));
    }
}

proof fn lemma_doc_entry_skip(acc: DocFieldsView, b: Seq<u8>, pos: nat)
    requires
        doc_entry(acc, b, pos) is Some,
    ensures
        skip(b, pos, 2) == Some((doc_entry(acc, b, pos)->Some_0).1),
{
    let (m, a, nx) = head(b, pos)->Some_0;
    lemma_head_next(b, pos);
    let q = nx + a;
    assert(skip(b, pos, 2) == skip(b, q, 1));
    let id = key_id(b.subrange(nx as int, q as int));
    let e = (doc_entry(acc, b, pos)->Some_0).1;
    if 1 <= id <= 9 {
        lemma_head_next(b, q);
        let (m2, a2, nx2) = head(b, q)->Some_0;
        if id == 4 {
            lemma_pcr_list_skip(b, nx2, a2, Seq::empty());
            lemma_skip_bounds(b, nx2, 2 * a2);
            assert(skip(b, q, 1) == Some(e));
        } else if id == 6 {
            lemma_bstr_list_skip(b, nx2, a2, Seq::empty());
            lemma_skip_bounds(b, nx2, a2);
            assert(skip(b, q, 1) == Some(e));
        } else {
            assert(skip(b, e, 0) == Some(e));
            assert(skip(b, q, 1) == Some(e));
        }
    } else {
        assert(skip(b, q, 1) == Some(e));
    }
}

proof fn lemma_doc_entries_keep_timestamp(acc: DocFieldsView, b: Seq<u8>, pos: nat, n: nat)
    requires
        doc_entries(acc, b, pos, n) is Some,
        acc.timestamp is Some,
    ensures
        (doc_entries(acc, b, pos, n)->Some_0).0.timestamp == acc.timestamp,
    decreases n,
{
    if n > 0 {
        let (acc2, e) = doc_entry(acc, b, pos)->Some_0;
        lemma_doc_entries_keep_timestamp(acc2, b, e, (n - 1) as nat);
    }
}

proof fn lemma_doc_entries_find(acc: DocFieldsView, b: Seq<u8>, pos: nat, n: nat)
    requires
        doc_entries(acc, b, pos, n) is Some,
        acc.timestamp is None,
        (doc_entries(acc, b, pos, n)->Some_0).0.timestamp is Some,
    ensures
        find_value(b, pos, n, timestamp_key()) matches Some(q) && uint_value(b, q) matches Some((t, e))
            && t == (doc_entries(acc, b, pos, n)->Some_0).0.timestamp->Some_0,
    decreases n,
{
    if n > 0 {
        let (acc2, e) = doc_entry(acc, b, pos)->Some_0;
        lemma_doc_entry_skip(acc, b, pos);
        let (m, a, nx) = head(b, pos)->Some_0;
        let k = b.subrange(nx as int, (nx + a) as int);
        if k == timestamp_key() {
            assert(key_id(k) == 2);
            lemma_doc_entries_keep_timestamp(acc2, b, e, (n - 1) as nat);
        } else {
            assert(key_id(k) != 2);
            lemma_doc_entries_find(acc2, b, e, (n - 1) as nat);
        }
    }
}

/// A decoded document's timestamp is the unsigned integer that walking the
/// payload map finds under the key "timestamp".
pub proof fn lemma_doc_timestamp_field(b: Seq<u8>)
    requires
        doc_of(b) is Some,
    ensures
        head(b, 0) matches Some((m, n, start)) && find_value(b, start, n, timestamp_key()) matches Some(q)
            && uint_value(b, q) matches Some((t, e)) && t == (doc_of(b)->Some_0).timestamp,
{
    let (m, n, start) = head(b, 0)->Some_0;
    lemma_doc_entries_find(no_fields(), b, start, n);
}

} // verus!
