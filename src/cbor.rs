//! A reader for the definite-length subset of CBOR used by Nitro attestation
//! reports.

use vstd::prelude::*;

verus! {

/// Number of argument bytes that follow an initial byte with this
/// additional-information value; `None` for reserved or indefinite lengths.
pub open spec fn arg_len(info: nat) -> Option<nat> {
    if info < 24 {
        Some(0)
    } else if info == 24 {
        Some(1)
    } else if info == 25 {
        Some(2)
    } else if info == 26 {
        Some(4)
    } else if info == 27 {
        Some(8)
    } else {
        None
    }
}

/// Big-endian value of a byte string.
pub open spec fn be_value(s: Seq<u8>) -> nat
    decreases s.len(),
{
    if s.len() == 0 {
        0
    } else {
        be_value(s.drop_last()) * 256 + s.last() as nat
    }
}

/// The head of the data item at `pos`: major type, argument, and the
/// position just after the head.
pub open spec fn head(b: Seq<u8>, pos: nat) -> Option<(nat, nat, nat)> {
    if pos >= b.len() {
        None
    } else {
        let ib = b[pos as int] as nat;
        let major = ib / 32;
        let info = ib % 32;
        match arg_len(info) {
            None => None,
            Some(k) => if pos + 1 + k > b.len() {
                None
            } else if k == 0 {
                Some((major, info, pos + 1))
            } else {
                Some((major, be_value(b.subrange(pos + 1 as int, (pos + 1 + k) as int)), pos + 1 + k))
            },
        }
    }
}

pub struct Head {
    pub major: u8,
    pub arg: u64,
    pub next: usize,
}

pub fn read_head(b: &[u8], pos: usize) -> (r: Option<Head>)
    ensures
        match head(b@, pos as nat) {
            None => r is None,
            Some((m, a, n)) => r matches Some(h) && h.major == m && h.arg == a && h.next == n,
        },
{
    if pos >= b.len() {
        return None;
    }
    let ib = b[pos];
    let major = ib / 32;
    let info = ib % 32;
    let k: usize = if info < 24 {
        0
    } else if info == 24 {
        1
    } else if info == 25 {
        2
    } else if info == 26 {
        4
    } else if info == 27 {
        8
    } else {
        return None;
    };
    if k > b.len() - pos - 1 {
        return None;
    }
    if k == 0 {
        return Some(Head { major, arg: info as u64, next: pos + 1 });
    }
    let start = pos + 1;
    let mut v: u64 = 0;
    let mut i: usize = 0;
    while i < k
        invariant
            k <= 8,
            start + k <= b.len(),
            i <= k,
            v as nat == be_value(b@.subrange(start as int, start + i)),
            (v as nat) < pow256(i as nat),
        decreases k - i,
    {
        proof {
            let s = b@.subrange(start as int, start + i + 1);
            assert(s.drop_last() =~= b@.subrange(start as int, start + i));
            lemma_pow256_step(i as nat);
            lemma_pow256_le8(i as nat + 1);
            let x = v as nat;
            let p = pow256(i as nat);
            let y = b[start + i] as nat;
            assert(x * 256 + y < p * 256) by (nonlinear_arith)
                requires x < p, y < 256;
        }
        v = v * 256 + b[start + i] as u64;
        i = i + 1;
    }
    Some(Head { major, arg: v, next: start + k })
}

pub open spec fn pow256(n: nat) -> nat
    decreases n,
{
    if n == 0 {
        1
    } else {
        256 * pow256((n - 1) as nat)
    }
}

proof fn lemma_pow256_step(n: nat)
    ensures
        pow256(n + 1) == pow256(n) * 256,
{
}

proof fn lemma_pow256_le8(n: nat)
    requires
        n <= 8,
    ensures
        pow256(n) <= 0x1_0000_0000_0000_0000,
    decreases n,
{
    if n > 0 {
        lemma_pow256_le8((n - 1) as nat);
        assert(pow256(n) == 256 * pow256((n - 1) as nat));
        if n < 8 {
            lemma_pow256_mono((n - 1) as nat);
        }
        reveal_with_fuel(pow256, 9);
    }
}

proof fn lemma_pow256_mono(n: nat)
    ensures
        pow256(n) >= 1,
    decreases n,
{
    if n > 0 {
        lemma_pow256_mono((n - 1) as nat);
    }
}


/// Position after skipping `k` consecutive data items starting at `pos`.
/// Fails when the bytes end early, on an indefinite length, or when more
/// items are pending than bytes remain.
pub open spec fn skip(b: Seq<u8>, pos: nat, k: nat) -> Option<nat>
    decreases b.len() - pos,
{
    if k == 0 {
        Some(pos)
    } else {
        match head(b, pos) {
            None => None,
            Some((m, a, nx)) => {
                if nx <= pos || nx > b.len() {
                    None
                } else if m == 2 || m == 3 {
                    if nx + a > b.len() {
                        None
                    } else {
                        skip(b, nx + a, (k - 1) as nat)
                    }
                } else if m == 4 || m == 5 {
                    let more = if m == 4 { a } else { 2 * a };
                    if k - 1 + more > b.len() - nx {
                        None
                    } else {
                        skip(b, nx, (k - 1 + more) as nat)
                    }
                } else if m == 6 {
                    skip(b, nx, k)
                } else {
                    skip(b, nx, (k - 1) as nat)
                }
            },
        }
    }
}

pub proof fn lemma_head_next(b: Seq<u8>, pos: nat)
    ensures
        head(b, pos) matches Some((m, a, nx)) ==> pos < nx <= b.len() && m < 8,
{
}

pub proof fn lemma_skip_bounds(b: Seq<u8>, pos: nat, k: nat)
    requires
        pos <= b.len(),
    ensures
        skip(b, pos, k) matches Some(e) ==> pos <= e <= b.len(),
    decreases b.len() - pos,
{
    if k > 0 {
        if let Some((m, a, nx)) = head(b, pos) {
            if nx > pos && nx <= b.len() {
                if m == 2 || m == 3 {
                    if nx + a <= b.len() {
                        lemma_skip_bounds(b, nx + a, (k - 1) as nat);
                    }
                } else if m == 4 || m == 5 {
                    let more = if m == 4 { a } else { 2 * a };
                    if k - 1 + more <= b.len() - nx {
                        lemma_skip_bounds(b, nx, (k - 1 + more) as nat);
                    }
                } else if m == 6 {
                    lemma_skip_bounds(b, nx, k);
                } else {
                    lemma_skip_bounds(b, nx, (k - 1) as nat);
                }
            }
        }
    }
}

/// Skips `k` data items starting at `pos`.
pub fn skip_items(b: &[u8], pos: usize, count: usize) -> (r: Option<usize>)
    ensures
        pos <= b.len() ==> (r matches Some(e) ==> pos <= e <= b.len()),
        skip(b@, pos as nat, count as nat) == match r {
            Some(e) => Some(e as nat),
            None => None::<nat>,
        },
{
    proof {
        if pos <= b.len() {
            lemma_skip_bounds(b@, pos as nat, count as nat);
        }
    }
    let mut p = pos;
    let mut k = count;
    while k > 0
        invariant
            skip(b@, pos as nat, count as nat) == skip(b@, p as nat, k as nat),
        decreases b.len() - p,
    {
        proof {
            lemma_head_next(b@, p as nat);
        }
        let h = match read_head(b, p) {
            None => return None,
            Some(h) => h,
        };
        let rest = b.len() - h.next;
        if h.major == 2 || h.major == 3 {
            if h.arg > rest as u64 {
                return None;
            }
            p = h.next + h.arg as usize;
            k = k - 1;
        } else if h.major == 4 || h.major == 5 {
            let more: u128 = if h.major == 4 { h.arg as u128 } else { 2 * (h.arg as u128) };
            if (k - 1) as u128 + more > rest as u128 {
                return None;
            }
            p = h.next;
            k = k - 1 + more as usize;
        } else if h.major == 6 {
            p = h.next;
        } else {
            p = h.next;
            k = k - 1;
        }
    }
    Some(p)
}

/// A byte string item at `pos`: its content and the position after it.
pub open spec fn bstr_at(b: Seq<u8>, pos: nat) -> Option<(Seq<u8>, nat)> {
    match head(b, pos) {
        Some((m, a, nx)) => if m == 2 && nx + a <= b.len() {
            Some((b.subrange(nx as int, (nx + a) as int), nx + a))
        } else {
            None
        },
        None => None,
    }
}

/// Reads a byte string item at `pos`, returning a copy of its content and
/// the position after it.
pub fn read_bstr(b: &[u8], pos: usize) -> (r: Option<(Vec<u8>, usize)>)
    ensures
        bstr_at(b@, pos as nat) == match r {
            Some((v, e)) => Some((v@, e as nat)),
            None => None::<(Seq<u8>, nat)>,
        },
{
    let h = match read_head(b, pos) {
        None => return None,
        Some(h) => h,
    };
    proof {
        lemma_head_next(b@, pos as nat);
    }
    if h.major != 2 || h.arg > (b.len() - h.next) as u64 {
        return None;
    }
    let end = h.next + h.arg as usize;
    let v = slice_to_vec(b, h.next, end);
    Some((v, end))
}

/// Copies `b[start..end]`.
pub fn slice_to_vec(b: &[u8], start: usize, end: usize) -> (r: Vec<u8>)
    requires
        start <= end <= b.len(),
    ensures
        r@ == b@.subrange(start as int, end as int),
{
    let mut v: Vec<u8> = Vec::new();
    let mut i: usize = start;
    while i < end
        invariant
            start <= i <= end <= b.len(),
            v@ == b@.subrange(start as int, i as int),
        decreases end - i,
    {
        v.push(b[i]);
        i = i + 1;
    }
    v
}


/// The shortest head of major type `major` with argument `n`.
pub open spec fn enc_head(major: u8, n: nat) -> Seq<u8> {
    let ib = major as int * 32;
    if n < 24 {
        seq![(ib + n) as u8]
    } else if n < 0x100 {
        seq![(ib + 24) as u8, n as u8]
    } else if n < 0x10000 {
        seq![(ib + 25) as u8, ((n / 0x100) % 0x100) as u8, (n % 0x100) as u8]
    } else if n < 0x1_0000_0000 {
        seq![
            (ib + 26) as u8,
            ((n / 0x100_0000) % 0x100) as u8,
            ((n / 0x1_0000) % 0x100) as u8,
            ((n / 0x100) % 0x100) as u8,
            (n % 0x100) as u8,
        ]
    } else {
        seq![
            (ib + 27) as u8,
            ((n / 0x100_0000_0000_0000) % 0x100) as u8,
            ((n / 0x1_0000_0000_0000) % 0x100) as u8,
            ((n / 0x100_0000_0000) % 0x100) as u8,
            ((n / 0x1_0000_0000) % 0x100) as u8,
            ((n / 0x100_0000) % 0x100) as u8,
            ((n / 0x1_0000) % 0x100) as u8,
            ((n / 0x100) % 0x100) as u8,
            (n % 0x100) as u8,
        ]
    }
}

/// Appends the shortest head of major type `major` (below 8) with argument `n`.
pub fn push_head(v: &mut Vec<u8>, major: u8, n: u64)
    requires
        major < 8,
    ensures
        final(v)@ == old(v)@ + enc_head(major, n as nat),
{
    let ib: u8 = major * 32;
    if n < 24 {
        v.push(ib + n as u8);
    } else if n < 0x100 {
        v.push(ib + 24);
        v.push(n as u8);
    } else if n < 0x10000 {
        v.push(ib + 25);
        v.push(((n / 0x100) % 0x100) as u8);
        v.push((n % 0x100) as u8);
    } else if n < 0x1_0000_0000 {
        v.push(ib + 26);
        v.push(((n / 0x100_0000) % 0x100) as u8);
        v.push(((n / 0x1_0000) % 0x100) as u8);
        v.push(((n / 0x100) % 0x100) as u8);
        v.push((n % 0x100) as u8);
    } else {
        v.push(ib + 27);
        v.push(((n / 0x100_0000_0000_0000) % 0x100) as u8);
        v.push(((n / 0x1_0000_0000_0000) % 0x100) as u8);
        v.push(((n / 0x100_0000_0000) % 0x100) as u8);
        v.push(((n / 0x1_0000_0000) % 0x100) as u8);
        v.push(((n / 0x100_0000) % 0x100) as u8);
        v.push(((n / 0x1_0000) % 0x100) as u8);
        v.push(((n / 0x100) % 0x100) as u8);
        v.push((n % 0x100) as u8);
    }
    assert(v@ =~= old(v)@ + enc_head(major, n as nat));
}

/// Appends all of `b`.
pub fn push_bytes(v: &mut Vec<u8>, b: &[u8])
    ensures
        final(v)@ == old(v)@ + b@,
{
    let ghost o = v@;
    let mut i: usize = 0;
    while i < b.len()
        invariant
            i <= b.len(),
            v@ == o + b@.subrange(0, i as int),
        decreases b.len() - i,
    {
        v.push(b[i]);
        proof {
            assert(v@ =~= o + b@.subrange(0, i + 1));
        }
        i = i + 1;
    }
    assert(b@.subrange(0, b.len() as int) =~= b@);
}


proof fn lemma_be_value_one(a: u8)
    ensures
        be_value(seq![a]) == a as nat,
{
    assert(seq![a].drop_last() =~= Seq::<u8>::empty());
    assert(be_value(Seq::<u8>::empty()) == 0);
    assert(seq![a].last() == a);
}

proof fn lemma_be_value_push(s: Seq<u8>, a: u8)
    ensures
        be_value(s.push(a)) == be_value(s) * 256 + a as nat,
{
    assert(s.push(a).drop_last() =~= s);
}

proof fn lemma_div_step(n: nat, d: nat)
    requires
        d > 0,
    ensures
        n / d == (n / (d * 256)) * 256 + (n / d) % 256,
        (n / d) / 256 == n / (d * 256),
{
    vstd::arithmetic::div_mod::lemma_div_denominator(n as int, d as int, 256);
    vstd::arithmetic::div_mod::lemma_fundamental_div_mod((n / d) as int, 256);
}

/// An encoded head decodes back to its major type and argument.
pub proof fn lemma_enc_head(major: u8, n: nat, b: Seq<u8>, pos: nat)
    requires
        major < 8,
        n < 0x1_0000_0000_0000_0000,
        pos + enc_head(major, n).len() <= b.len(),
        b.subrange(pos as int, (pos + enc_head(major, n).len()) as int) == enc_head(major, n),
    ensures
        head(b, pos) == Some((major as nat, n, pos + enc_head(major, n).len())),
{
    let e = enc_head(major, n);
    let ib = major as int * 32;
    assert(b[pos as int] == e[0]) by {
        assert(b.subrange(pos as int, (pos + e.len()) as int)[0] == e[0]);
    }
    if n < 24 {
        assert(e[0] as nat == ib + n);
    } else {
        let k = (e.len() - 1) as nat;
        let arg = b.subrange(pos + 1 as int, (pos + 1 + k) as int);
        assert(arg =~= e.subrange(1, e.len() as int)) by {
            assert forall|i: int| 0 <= i < k implies arg[i] == e[i + 1] by {
                assert(b.subrange(pos as int, (pos + e.len()) as int)[i + 1] == e[i + 1]);
            }
        }
        if n < 0x100 {
            assert(arg =~= seq![n as u8]);
            lemma_be_value_one(n as u8);
        } else if n < 0x10000 {
            let a = ((n / 0x100) % 0x100) as u8;
            let c = (n % 0x100) as u8;
            assert(arg =~= seq![a].push(c));
            lemma_be_value_one(a);
            lemma_be_value_push(seq![a], c);
            lemma_div_step(n, 1);
            assert(n / 0x100 < 0x100);
        } else if n < 0x1_0000_0000 {
            let s1 = seq![((n / 0x100_0000) % 0x100) as u8];
            let s2 = s1.push(((n / 0x1_0000) % 0x100) as u8);
            let s3 = s2.push(((n / 0x100) % 0x100) as u8);
            let s4 = s3.push((n % 0x100) as u8);
            assert(arg =~= s4);
            lemma_be_value_one(s1[0]);
            lemma_be_value_push(s1, s2.last());
            lemma_be_value_push(s2, s3.last());
            lemma_be_value_push(s3, s4.last());
            lemma_div_step(n, 1);
            lemma_div_step(n, 0x100);
            lemma_div_step(n, 0x1_0000);
            assert(n / 0x100_0000 < 0x100);
        } else {
            let s1 = seq![((n / 0x100_0000_0000_0000) % 0x100) as u8];
            let s2 = s1.push(((n / 0x1_0000_0000_0000) % 0x100) as u8);
            let s3 = s2.push(((n / 0x100_0000_0000) % 0x100) as u8);
            let s4 = s3.push(((n / 0x1_0000_0000) % 0x100) as u8);
            let s5 = s4.push(((n / 0x100_0000) % 0x100) as u8);
            let s6 = s5.push(((n / 0x1_0000) % 0x100) as u8);
            let s7 = s6.push(((n / 0x100) % 0x100) as u8);
            let s8 = s7.push((n % 0x100) as u8);
            assert(arg =~= s8);
            lemma_be_value_one(s1[0]);
            lemma_be_value_push(s1, s2.last());
            lemma_be_value_push(s2, s3.last());
            lemma_be_value_push(s3, s4.last());
            lemma_be_value_push(s4, s5.last());
            lemma_be_value_push(s5, s6.last());
            lemma_be_value_push(s6, s7.last());
            lemma_be_value_push(s7, s8.last());
            lemma_div_step(n, 1);
            lemma_div_step(n, 0x100);
            lemma_div_step(n, 0x1_0000);
            lemma_div_step(n, 0x100_0000);
            lemma_div_step(n, 0x1_0000_0000);
            lemma_div_step(n, 0x100_0000_0000);
            lemma_div_step(n, 0x1_0000_0000_0000);
            assert(n / 0x100_0000_0000_0000 < 0x100);
        }
    }
}


/// A head read inside bytes embedded at `off` is read the same way there.
pub proof fn lemma_head_frame(u: Seq<u8>, b: Seq<u8>, off: nat, i: nat)
    requires
        off + u.len() <= b.len(),
        b.subrange(off as int, (off + u.len()) as int) == u,
        head(u, i) is Some,
    ensures
        head(b, off + i) == Some(((head(u, i)->Some_0).0, (head(u, i)->Some_0).1, off + (head(u, i)->Some_0).2)),
{
    let (m, a, nx) = head(u, i)->Some_0;
    lemma_head_next(u, i);
    let o = off as int;
    let ii = i as int;
    assert(b[o + ii] == u[ii]) by {
        assert(b.subrange(o, o + u.len())[ii] == u[ii]);
    }
    let kk = nx - i - 1;
    if kk > 0 {
        let bs = b.subrange(o + ii + 1, o + ii + 1 + kk);
        let us = u.subrange(ii + 1, ii + 1 + kk);
        assert(bs =~= us) by {
            assert forall|j: int| 0 <= j < kk implies #[trigger] bs[j] == us[j] by {
                assert(b.subrange(o, o + u.len())[ii + 1 + j] == u[ii + 1 + j]);
            }
        }
    }
}

/// Skipping items inside bytes embedded at `off` ends at the same place
/// there.
pub proof fn lemma_skip_frame(u: Seq<u8>, b: Seq<u8>, off: nat, i: nat, k: nat)
    requires
        off + u.len() <= b.len(),
        b.subrange(off as int, (off + u.len()) as int) == u,
        i <= u.len(),
        skip(u, i, k) is Some,
    ensures
        skip(b, off + i, k) == Some(off + skip(u, i, k)->Some_0),
    decreases u.len() - i,
{
    if k > 0 {
        let (m, a, nx) = head(u, i)->Some_0;
        lemma_head_frame(u, b, off, i);
        lemma_head_next(u, i);
        if m == 2 || m == 3 {
            lemma_skip_frame(u, b, off, nx + a, (k - 1) as nat);
        } else if m == 4 || m == 5 {
            let more = if m == 4 { a } else { 2 * a };
            lemma_skip_frame(u, b, off, nx, (k - 1 + more) as nat);
        } else if m == 6 {
            lemma_skip_frame(u, b, off, nx, k);
        } else {
            lemma_skip_frame(u, b, off, nx, (k - 1) as nat);
        }
    }
}

} // verus!
