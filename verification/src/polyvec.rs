//! Vectors of polynomials: noise vectors, the product of the public matrix
//! with a vector, and the serialization and compression of vectors.
//!
//! The public matrix is never stored: each entry is expanded from the
//! public seed when the product needs it.
use vstd::prelude::*;
use crate::bytes::{append_bytes, copy_range, wipe};
use crate::compression::{spec_poly_compress, spec_poly_decompress};
use crate::hash::{prf, spec_prf, spec_xof, xof};
use crate::ntt::spec_ntt;
use crate::params::{N, XOF_DRAW_BYTES, XOF_MAX_DRAWS};
use crate::poly::{Domain, Poly, spec_pointwise_mul, spec_poly_add, spec_zero};
use crate::utils::{
    cbd,
    poly_compress,
    poly_decompress,
    poly_from_bytes,
    poly_to_bytes,
    sample_ntt,
    spec_cbd,
    spec_poly_from_bytes,
    spec_poly_to_bytes,
    spec_uniform_candidates,
};

verus! {

/// The polynomials of a vector as sequences of integers.
pub open spec fn polys_view(v: Seq<Poly>) -> Seq<Seq<int>> {
    Seq::new(v.len(), |i: int| v[i]@)
}

/// Every polynomial of the vector has its coefficients in `[0, 3329)`.
pub open spec fn polys_wf(v: Seq<Poly>) -> bool {
    forall|i: int| 0 <= i < v.len() ==> (#[trigger] v[i]).wf()
}

/// Every polynomial of the vector is in the domain `d`.
pub open spec fn polys_in(v: Seq<Poly>, d: Domain) -> bool {
    forall|i: int| 0 <= i < v.len() ==> (#[trigger] v[i]).domain == d
}

/// What an optional polynomial holds, as a sequence of integers.
pub open spec fn opt_view(p: Option<Poly>) -> Option<Seq<int>> {
    match p {
        Some(q) => Some(q@),
        None => None,
    }
}

/// What an optional vector holds, as sequences of integers.
pub open spec fn opt_polys_view(v: Option<Vec<Poly>>) -> Option<Seq<Seq<int>>> {
    match v {
        Some(w) => Some(polys_view(w@)),
        None => None,
    }
}

/// Overwrites every polynomial of a vector with zeros, for secrets that are
/// no longer needed.
pub fn wipe_polys(v: &mut Vec<Poly>)
    ensures
        final(v)@.len() == old(v)@.len(),
        forall|i: int| 0 <= i < final(v)@.len() ==> (#[trigger] final(v)@[i])@ == spec_zero(),
        forall|i: int|
            0 <= i < final(v)@.len() ==> (#[trigger] final(v)@[i]).domain == old(v)@[i].domain,
{
    let n = v.len();
    let mut i: usize = 0;
    while i < n
        invariant
            i <= n,
            v@.len() == n,
            old(v)@.len() == n,
            forall|t: int| 0 <= t < i ==> (#[trigger] v@[t])@ == spec_zero(),
            forall|t: int| 0 <= t < n ==> (#[trigger] v@[t]).domain == old(v)@[t].domain,
        decreases n - i,
    {
        v[i].wipe();
        i += 1;
    }
}

/// The noise polynomial for a seed and a nonce: the centered binomial
/// sample of width `eta` of `64 * eta` bytes of the pseudorandom function.
pub open spec fn spec_noise(seed: Seq<u8>, nonce: int, eta: int) -> Seq<int> {
    spec_cbd(spec_prf(seed, nonce as u8, (64 * eta) as nat), eta)
}

/// The noise vector of `k` polynomials whose nonces count up from `first`.
pub open spec fn spec_noise_vec(seed: Seq<u8>, first: int, k: int, eta: int) -> Seq<Seq<int>> {
    Seq::new(k as nat, |i: int| spec_noise(seed, first + i, eta))
}

/// Samples the noise polynomial for a seed and a nonce, in the
/// coefficient domain.
pub fn sample_noise(seed: &[u8], nonce: u8, eta: usize) -> (p: Poly)
    requires
        2 <= eta <= 3,
    ensures
        p@ == spec_noise(seed@, nonce as int, eta as int),
        p.wf(),
        p.domain == Domain::Coefficient,
{
    let mut buf = prf(seed, nonce, 64 * eta);
    let mut p = Poly::new();
    cbd(buf.as_slice(), eta, &mut p);
    wipe(buf.as_mut_slice());
    p
}

/// Samples `k` noise polynomials with the nonces `first`, `first + 1`, ...
pub fn sample_noise_vec(seed: &[u8], first: u8, k: usize, eta: usize) -> (v: Vec<Poly>)
    requires
        2 <= eta <= 3,
        first + k <= 256,
    ensures
        polys_view(v@) == spec_noise_vec(seed@, first as int, k as int, eta as int),
        polys_wf(v@),
        polys_in(v@, Domain::Coefficient),
        v@.len() == k,
{
    let mut v: Vec<Poly> = Vec::new();
    let mut i: usize = 0;
    while i < k
        invariant
            i <= k,
            2 <= eta <= 3,
            first + k <= 256,
            v@.len() == i,
            polys_wf(v@),
            polys_in(v@, Domain::Coefficient),
            forall|t: int|
                0 <= t < i ==> (#[trigger] v@[t])@ == spec_noise(seed@, first + t, eta as int),
        decreases k - i,
    {
        let p = sample_noise(seed, first + i as u8, eta);
        v.push(p);
        i += 1;
    }
    proof {
        assert(polys_view(v@) =~= spec_noise_vec(seed@, first as int, k as int, eta as int));
    }
    v
}

/// The input of the extendable-output function for one matrix entry: the
/// public seed followed by the two index bytes.
pub open spec fn spec_entry_seed(rho: Seq<u8>, a: int, b: int) -> Seq<u8> {
    rho.push(a as u8).push(b as u8)
}

/// The outcome of uniform sampling from attempt number `attempt` on: the
/// first 256 accepted candidates of the first attempt whose stream holds
/// that many, where attempt `n` reads `672 * n` bytes; nothing if no
/// attempt up to the last one does.
pub open spec fn spec_entry_draw(seed: Seq<u8>, attempt: int) -> Option<Seq<int>>
    decreases XOF_MAX_DRAWS + 1 - attempt,
{
    if attempt < 1 || attempt > XOF_MAX_DRAWS {
        None
    } else {
        let c = spec_uniform_candidates(spec_xof(seed, (XOF_DRAW_BYTES * attempt) as nat));
        if c.len() >= 256 {
            Some(c.subrange(0, 256))
        } else {
            spec_entry_draw(seed, attempt + 1)
        }
    }
}

/// The matrix entry that the public seed `rho` gives for the index bytes
/// `a` and `b`, in the evaluation domain.
pub open spec fn spec_matrix_entry(rho: Seq<u8>, a: int, b: int) -> Option<Seq<int>> {
    spec_entry_draw(spec_entry_seed(rho, a, b), 1)
}

/// Expands one matrix entry from the public seed by uniform rejection
/// sampling.  Drawing goes on, each attempt with a longer stream, until
/// 256 coefficients are found or the last attempt has failed.
pub fn sample_matrix_entry(rho: &[u8], a: u8, b: u8) -> (r: Option<Poly>)
    ensures
        opt_view(r) == spec_matrix_entry(rho@, a as int, b as int),
        r matches Some(p) ==> p.wf() && p.domain == Domain::Evaluation,
{
    let mut seed: Vec<u8> = Vec::new();
    append_bytes(&mut seed, rho);
    seed.push(a);
    seed.push(b);
    proof {
        assert(seed@ =~= spec_entry_seed(rho@, a as int, b as int));
    }
    let mut attempt: usize = 1;
    while attempt <= XOF_MAX_DRAWS
        invariant
            1 <= attempt <= XOF_MAX_DRAWS + 1,
            seed@ == spec_entry_seed(rho@, a as int, b as int),
            spec_entry_draw(seed@, attempt as int) == spec_matrix_entry(rho@, a as int, b as int),
        decreases XOF_MAX_DRAWS + 1 - attempt,
    {
        let stream = xof(seed.as_slice(), XOF_DRAW_BYTES * attempt);
        let mut p = Poly::new();
        let filled = sample_ntt(stream.as_slice(), &mut p);
        if filled == N {
            proof {
                let c = spec_uniform_candidates(stream@);
                assert(p@ =~= c.subrange(0, 256));
            }
            return Some(p);
        }
        attempt += 1;
    }
    None
}

/// The index bytes of the entry in row `i` and column `j`: column then row
/// for the matrix itself, row then column for its transpose.
pub open spec fn spec_matrix_at(rho: Seq<u8>, i: int, j: int, transposed: bool) -> Option<
    Seq<int>,
> {
    if transposed {
        spec_matrix_entry(rho, i, j)
    } else {
        spec_matrix_entry(rho, j, i)
    }
}

/// Whether the public seed gives every entry of the `k` by `k` matrix.
pub open spec fn spec_matrix_ok(rho: Seq<u8>, k: int) -> bool {
    forall|a: int, b: int|
        0 <= a < k && 0 <= b < k ==> (#[trigger] spec_matrix_entry(rho, a, b)) is Some
}

/// Row `i` of the matrix, or of its transpose.
pub open spec fn spec_matrix_row(rho: Seq<u8>, i: int, k: int, transposed: bool) -> Seq<Seq<int>> {
    Seq::new(k as nat, |j: int| spec_matrix_at(rho, i, j, transposed).unwrap())
}

/// The sum of the coefficient-wise products of the first `n` polynomials of
/// `a` with those of `b`, in the evaluation domain.
pub open spec fn spec_dot(a: Seq<Seq<int>>, b: Seq<Seq<int>>, n: int) -> Seq<int>
    decreases n,
{
    if n <= 0 {
        spec_zero()
    } else {
        spec_poly_add(spec_dot(a, b, n - 1), spec_pointwise_mul(a[n - 1], b[n - 1]))
    }
}

/// The product of the matrix (or its transpose) with the vector `v`, in the
/// evaluation domain; nothing if the seed does not give every entry.
pub open spec fn spec_mat_vec(rho: Seq<u8>, k: int, transposed: bool, v: Seq<Seq<int>>) -> Option<
    Seq<Seq<int>>,
> {
    if spec_matrix_ok(rho, k) {
        Some(Seq::new(k as nat, |i: int| spec_dot(spec_matrix_row(rho, i, k, transposed), v, k)))
    } else {
        None
    }
}

/// Multiplies the matrix that `rho` expands to, or its transpose, with the
/// vector `v`; both are in the evaluation domain.
pub fn mat_vec_mul(rho: &[u8], k: usize, transposed: bool, v: &Vec<Poly>) -> (r: Option<Vec<Poly>>)
    requires
        1 <= k <= 4,
        v@.len() == k,
        polys_wf(v@),
        polys_in(v@, Domain::Evaluation),
    ensures
        opt_polys_view(r) == spec_mat_vec(rho@, k as int, transposed, polys_view(v@)),
        r matches Some(w) ==> polys_wf(w@) && polys_in(w@, Domain::Evaluation) && w@.len() == k,
{
    let ghost vv = polys_view(v@);
    let mut out: Vec<Poly> = Vec::new();
    let mut i: usize = 0;
    while i < k
        invariant
            1 <= k <= 4,
            i <= k,
            v@.len() == k,
            polys_wf(v@),
            polys_in(v@, Domain::Evaluation),
            vv == polys_view(v@),
            out@.len() == i,
            polys_wf(out@),
            polys_in(out@, Domain::Evaluation),
            forall|s: int, t: int|
                0 <= s < i && 0 <= t < k ==> (#[trigger] spec_matrix_at(
                    rho@,
                    s,
                    t,
                    transposed,
                )) is Some,
            forall|s: int|
                0 <= s < i ==> (#[trigger] out@[s])@ == spec_dot(
                    spec_matrix_row(rho@, s, k as int, transposed),
                    vv,
                    k as int,
                ),
        decreases k - i,
    {
        let ghost row = spec_matrix_row(rho@, i as int, k as int, transposed);
        let mut acc = Poly::zero(Domain::Evaluation);
        let mut j: usize = 0;
        while j < k
            invariant
                1 <= k <= 4,
                i < k,
                j <= k,
                v@.len() == k,
                polys_wf(v@),
                polys_in(v@, Domain::Evaluation),
                vv == polys_view(v@),
                row == spec_matrix_row(rho@, i as int, k as int, transposed),
                acc.wf(),
                acc.domain == Domain::Evaluation,
                acc@ == spec_dot(row, vv, j as int),
                forall|t: int|
                    0 <= t < j ==> (#[trigger] spec_matrix_at(rho@, i as int, t, transposed)) is Some,
            decreases k - j,
        {
            let entry = if transposed {
                sample_matrix_entry(rho, i as u8, j as u8)
            } else {
                sample_matrix_entry(rho, j as u8, i as u8)
            };
            match entry {
                None => {
                    proof {
                        assert(spec_matrix_at(rho@, i as int, j as int, transposed) is None);
                        if transposed {
                            assert(spec_matrix_entry(rho@, i as int, j as int) is None);
                        } else {
                            assert(spec_matrix_entry(rho@, j as int, i as int) is None);
                        }
                    }
                    return None;
                },
                Some(e) => {
                    let mut tmp = e;
                    assert(v@[j as int].wf() && v@[j as int].domain == Domain::Evaluation);
                    tmp.pointwise_mul(&v[j]);
                    acc.add(&tmp);
                    proof {
                        assert(row[j as int] == e@);
                        assert(vv[j as int] == v@[j as int]@);
                    }
                },
            }
            j += 1;
        }
        out.push(acc);
        i += 1;
    }
    proof {
        assert forall|a: int, b: int| 0 <= a < k && 0 <= b < k implies (
        #[trigger] spec_matrix_entry(rho@, a, b)) is Some by {
            if transposed {
                assert(spec_matrix_at(rho@, a, b, transposed) is Some);
            } else {
                assert(spec_matrix_at(rho@, b, a, transposed) is Some);
            }
        }
        assert(polys_view(out@) =~= spec_mat_vec(
            rho@,
            k as int,
            transposed,
            polys_view(v@),
        ).unwrap());
    }
    Some(out)
}

/// Multiplies two vectors of the same length, polynomial by polynomial and
/// coefficient by coefficient, and sums the products; all in the
/// evaluation domain.
pub fn dot(a: &Vec<Poly>, b: &Vec<Poly>) -> (r: Poly)
    requires
        a@.len() == b@.len(),
        polys_wf(a@),
        polys_wf(b@),
        polys_in(a@, Domain::Evaluation),
        polys_in(b@, Domain::Evaluation),
    ensures
        r@ == spec_dot(polys_view(a@), polys_view(b@), a@.len() as int),
        r.wf(),
        r.domain == Domain::Evaluation,
{
    let mut acc = Poly::zero(Domain::Evaluation);
    let mut j: usize = 0;
    while j < a.len()
        invariant
            j <= a@.len(),
            a@.len() == b@.len(),
            polys_wf(a@),
            polys_wf(b@),
            polys_in(a@, Domain::Evaluation),
            polys_in(b@, Domain::Evaluation),
            acc.wf(),
            acc.domain == Domain::Evaluation,
            acc@ == spec_dot(polys_view(a@), polys_view(b@), j as int),
        decreases a@.len() - j,
    {
        let mut tmp = a[j];
        assert(a@[j as int].wf() && a@[j as int].domain == Domain::Evaluation);
        assert(b@[j as int].wf() && b@[j as int].domain == Domain::Evaluation);
        tmp.pointwise_mul(&b[j]);
        acc.add(&tmp);
        proof {
            assert(polys_view(a@)[j as int] == a@[j as int]@);
            assert(polys_view(b@)[j as int] == b@[j as int]@);
        }
        j += 1;
    }
    acc
}

/// The forward transform of every polynomial of a vector.
pub open spec fn spec_ntt_vec(v: Seq<Seq<int>>) -> Seq<Seq<int>> {
    Seq::new(v.len(), |i: int| spec_ntt(v[i]))
}

/// Takes every polynomial of a vector from the coefficient domain to the
/// evaluation domain.
pub fn ntt_vec(v: &Vec<Poly>) -> (r: Vec<Poly>)
    requires
        polys_wf(v@),
        polys_in(v@, Domain::Coefficient),
    ensures
        polys_view(r@) == spec_ntt_vec(polys_view(v@)),
        polys_wf(r@),
        polys_in(r@, Domain::Evaluation),
        r@.len() == v@.len(),
{
    let mut r: Vec<Poly> = Vec::new();
    let mut i: usize = 0;
    while i < v.len()
        invariant
            i <= v@.len(),
            polys_wf(v@),
            polys_in(v@, Domain::Coefficient),
            r@.len() == i,
            polys_wf(r@),
            polys_in(r@, Domain::Evaluation),
            forall|t: int| 0 <= t < i ==> (#[trigger] r@[t])@ == spec_ntt(v@[t]@),
        decreases v@.len() - i,
    {
        let mut p = v[i];
        assert(v@[i as int].wf() && v@[i as int].domain == Domain::Coefficient);
        p.ntt();
        r.push(p);
        i += 1;
    }
    proof {
        assert(polys_view(r@) =~= spec_ntt_vec(polys_view(v@)));
    }
    r
}

/// The serializations of the polynomials of a vector, one after the other.
pub open spec fn spec_polyvec_to_bytes(v: Seq<Seq<int>>) -> Seq<u8>
    decreases v.len(),
{
    if v.len() == 0 {
        Seq::empty()
    } else {
        spec_polyvec_to_bytes(v.drop_last()) + spec_poly_to_bytes(v.last())
    }
}

/// The vector of `k` polynomials that `416 * k` bytes hold.
pub open spec fn spec_polyvec_from_bytes(buf: Seq<u8>, k: int) -> Seq<Seq<int>> {
    Seq::new(k as nat, |i: int| spec_poly_from_bytes(buf.subrange(416 * i, 416 * i + 416)))
}

/// The compressed encodings of the polynomials of a vector, one after the
/// other.
pub open spec fn spec_polyvec_compress(v: Seq<Seq<int>>, d: int) -> Seq<u8>
    decreases v.len(),
{
    if v.len() == 0 {
        Seq::empty()
    } else {
        spec_polyvec_compress(v.drop_last(), d) + spec_poly_compress(v.last(), d)
    }
}

/// The vector of `k` polynomials that `32 * d * k` bytes of compressed
/// encoding stand for.
pub open spec fn spec_polyvec_decompress(buf: Seq<u8>, k: int, d: int) -> Seq<Seq<int>> {
    Seq::new(
        k as nat,
        |i: int| spec_poly_decompress(buf.subrange(32 * d * i, 32 * d * i + 32 * d), d),
    )
}

/// A serialized vector of `n` polynomials has `416 * n` bytes.
pub proof fn lemma_polyvec_to_bytes_len(v: Seq<Seq<int>>)
    requires
        forall|i: int| 0 <= i < v.len() ==> (#[trigger] v[i]).len() == 256,
    ensures
        spec_polyvec_to_bytes(v).len() == 416 * v.len(),
    decreases v.len(),
{
    if v.len() > 0 {
        lemma_polyvec_to_bytes_len(v.drop_last());
    }
}

/// A compressed vector of `n` polynomials has `32 * d * n` bytes.
pub proof fn lemma_polyvec_compress_len(v: Seq<Seq<int>>, d: int)
    requires
        1 <= d <= 11,
    ensures
        spec_polyvec_compress(v, d).len() == 32 * d * v.len(),
    decreases v.len(),
{
    if v.len() > 0 {
        lemma_polyvec_compress_len(v.drop_last(), d);
        assert((256 * d) / 8 == 32 * d);
        assert(32 * d * v.len() == 32 * d * (v.len() - 1) + 32 * d) by (nonlinear_arith);
    }
}

/// Serializes a vector of polynomials, one polynomial after the other.
pub fn polyvec_to_bytes(v: &Vec<Poly>) -> (buf: Vec<u8>)
    requires
        polys_wf(v@),
        v@.len() <= 4,
    ensures
        buf@ == spec_polyvec_to_bytes(polys_view(v@)),
        buf@.len() == 416 * v@.len(),
{
    let ghost vv = polys_view(v@);
    let mut buf: Vec<u8> = Vec::new();
    let mut i: usize = 0;
    proof {
        assert(vv.subrange(0, 0) =~= Seq::<Seq<int>>::empty());
    }
    while i < v.len()
        invariant
            i <= v@.len(),
            polys_wf(v@),
            vv == polys_view(v@),
            buf@ == spec_polyvec_to_bytes(vv.subrange(0, i as int)),
            buf@.len() == 416 * i,
        decreases v@.len() - i,
    {
        assert(v@[i as int].wf());
        let b = poly_to_bytes(&v[i]);
        append_bytes(&mut buf, b.as_slice());
        proof {
            let next = vv.subrange(0, i + 1);
            assert(next.drop_last() =~= vv.subrange(0, i as int));
            assert(next.last() == v@[i as int]@);
        }
        i += 1;
    }
    proof {
        assert(vv.subrange(0, i as int) =~= vv);
    }
    buf
}

/// Reads a vector of `k` polynomials from `416 * k` bytes.  The bytes do
/// not say which domain the polynomials are in: the caller does.
pub fn polyvec_from_bytes(buf: &[u8], k: usize, domain: Domain) -> (v: Vec<Poly>)
    requires
        k <= 4,
        buf@.len() == 416 * k,
    ensures
        polys_view(v@) == spec_polyvec_from_bytes(buf@, k as int),
        polys_wf(v@),
        polys_in(v@, domain),
        v@.len() == k,
{
    let mut v: Vec<Poly> = Vec::new();
    let mut i: usize = 0;
    while i < k
        invariant
            i <= k <= 4,
            buf@.len() == 416 * k,
            v@.len() == i,
            polys_wf(v@),
            polys_in(v@, domain),
            forall|t: int|
                0 <= t < i ==> (#[trigger] v@[t])@ == spec_poly_from_bytes(
                    buf@.subrange(416 * t, 416 * t + 416),
                ),
        decreases k - i,
    {
        let chunk = copy_range(buf, 416 * i, 416 * i + 416);
        let mut p = Poly::new();
        poly_from_bytes(chunk.as_slice(), domain, &mut p);
        v.push(p);
        i += 1;
    }
    proof {
        assert(polys_view(v@) =~= spec_polyvec_from_bytes(buf@, k as int));
    }
    v
}

/// Compresses every polynomial of a vector in the coefficient domain to
/// `d` bits per coefficient.
pub fn polyvec_compress(v: &Vec<Poly>, d: usize) -> (buf: Vec<u8>)
    requires
        polys_wf(v@),
        polys_in(v@, Domain::Coefficient),
        v@.len() <= 4,
        1 <= d <= 11,
    ensures
        buf@ == spec_polyvec_compress(polys_view(v@), d as int),
        buf@.len() == 32 * d * v@.len(),
{
    let ghost vv = polys_view(v@);
    let mut buf: Vec<u8> = Vec::new();
    let mut i: usize = 0;
    proof {
        assert(vv.subrange(0, 0) =~= Seq::<Seq<int>>::empty());
    }
    while i < v.len()
        invariant
            i <= v@.len(),
            1 <= d <= 11,
            polys_wf(v@),
            polys_in(v@, Domain::Coefficient),
            vv == polys_view(v@),
            buf@ == spec_polyvec_compress(vv.subrange(0, i as int), d as int),
            buf@.len() == 32 * d * i,
        decreases v@.len() - i,
    {
        assert(v@[i as int].wf() && v@[i as int].domain == Domain::Coefficient);
        let b = poly_compress(&v[i], d);
        append_bytes(&mut buf, b.as_slice());
        proof {
            let next = vv.subrange(0, i + 1);
            assert(next.drop_last() =~= vv.subrange(0, i as int));
            assert(next.last() == v@[i as int]@);
            assert(32 * d * (i + 1) == 32 * d * i + 32 * d) by (nonlinear_arith);
        }
        i += 1;
    }
    proof {
        assert(vv.subrange(0, i as int) =~= vv);
    }
    buf
}

/// Decompresses a vector of `k` polynomials from `32 * d * k` bytes.
pub fn polyvec_decompress(buf: &[u8], k: usize, d: usize) -> (v: Vec<Poly>)
    requires
        k <= 4,
        1 <= d <= 11,
        buf@.len() == 32 * d * k,
    ensures
        polys_view(v@) == spec_polyvec_decompress(buf@, k as int, d as int),
        polys_wf(v@),
        polys_in(v@, Domain::Coefficient),
        v@.len() == k,
{
    let mut v: Vec<Poly> = Vec::new();
    let mut i: usize = 0;
    let step = 32 * d;
    while i < k
        invariant
            i <= k <= 4,
            1 <= d <= 11,
            step == 32 * d,
            buf@.len() == 32 * d * k,
            v@.len() == i,
            polys_wf(v@),
            polys_in(v@, Domain::Coefficient),
            forall|t: int|
                0 <= t < i ==> (#[trigger] v@[t])@ == spec_poly_decompress(
                    buf@.subrange(32 * d * t, 32 * d * t + 32 * d),
                    d as int,
                ),
        decreases k - i,
    {
        assert(step * i + step <= step * k) by (nonlinear_arith)
            requires
                i + 1 <= k,
                step >= 0,
        ;
        assert(0 <= step * i <= 352 * 4) by (nonlinear_arith)
            requires
                0 <= i <= 4,
                0 <= step <= 352,
        ;
        let chunk = copy_range(buf, step * i, step * i + step);
        let mut p = Poly::new();
        poly_decompress(chunk.as_slice(), d, &mut p);
        v.push(p);
        i += 1;
    }
    proof {
        assert(polys_view(v@) =~= spec_polyvec_decompress(buf@, k as int, d as int));
    }
    v
}

} // verus!
