//! Key generation of the encryption scheme that the mechanism is built on.
use vstd::prelude::*;
use crate::bytes::{append_bytes, copy_range, wipe};
use crate::hash::{g, spec_g};
use crate::ntt::spec_inv_ntt;
use crate::params::ParamSet;
use crate::poly::{Domain, Poly, spec_poly_add};
use crate::polyvec::{
    mat_vec_mul,
    ntt_vec,
    polys_in,
    polys_view,
    polys_wf,
    polyvec_to_bytes,
    sample_noise_vec,
    spec_mat_vec,
    spec_matrix_ok,
    spec_noise_vec,
    spec_ntt_vec,
    spec_polyvec_to_bytes,
    wipe_polys,
};

verus! {

/// The public seed that a key-generation seed expands to: the first half of
/// `G(seed)`.
pub open spec fn spec_rho(seed: Seq<u8>) -> Seq<u8> {
    spec_g(seed).subrange(0, 32)
}

/// The noise seed that a key-generation seed expands to: the second half of
/// `G(seed)`.
pub open spec fn spec_sigma(seed: Seq<u8>) -> Seq<u8> {
    spec_g(seed).subrange(32, 64)
}

/// The secret vector `s` in the evaluation domain: noise of width `eta1`
/// with the nonces `0, ..., k - 1`, transformed.
pub open spec fn spec_secret_vec(p: ParamSet, seed: Seq<u8>) -> Seq<Seq<int>> {
    spec_ntt_vec(spec_noise_vec(spec_sigma(seed), 0, p.k as int, p.eta1 as int))
}

/// The error vector `e` in the evaluation domain: noise of width `eta1`
/// with the nonces `k, ..., 2k - 1`, transformed.
pub open spec fn spec_error_vec(p: ParamSet, seed: Seq<u8>) -> Seq<Seq<int>> {
    spec_ntt_vec(spec_noise_vec(spec_sigma(seed), p.k as int, p.k as int, p.eta1 as int))
}

/// Every polynomial of `a + b` taken back to the coefficient domain.
pub open spec fn spec_add_inv_ntt_vec(a: Seq<Seq<int>>, b: Seq<Seq<int>>) -> Seq<Seq<int>> {
    Seq::new(a.len(), |i: int| spec_inv_ntt(spec_poly_add(a[i], b[i])))
}

/// The public vector `t = A * s + e` in the coefficient domain; nothing if
/// the public seed does not give the whole matrix.
pub open spec fn spec_public_vec(p: ParamSet, seed: Seq<u8>) -> Option<Seq<Seq<int>>> {
    match spec_mat_vec(spec_rho(seed), p.k as int, false, spec_secret_vec(p, seed)) {
        Some(prod) => Some(spec_add_inv_ntt_vec(prod, spec_error_vec(p, seed))),
        None => None,
    }
}

/// The key pair that a seed gives: the public key is the serialized vector
/// `t` followed by the public seed, the secret key is the serialized vector
/// `s`, which stays in the evaluation domain.
pub open spec fn spec_indcpa_keypair(p: ParamSet, seed: Seq<u8>) -> Option<(Seq<u8>, Seq<u8>)> {
    match spec_public_vec(p, seed) {
        Some(t) => Some(
            (
                spec_polyvec_to_bytes(t) + spec_rho(seed),
                spec_polyvec_to_bytes(spec_secret_vec(p, seed)),
            ),
        ),
        None => None,
    }
}

/// The keys of a key pair have the lengths that the parameters give.
pub proof fn lemma_indcpa_keypair_len(p: ParamSet, seed: Seq<u8>)
    requires
        p.wf(),
        spec_indcpa_keypair(p, seed) is Some,
    ensures
        spec_indcpa_keypair(p, seed).unwrap().0.len() == p.spec_public_key_bytes(),
        spec_indcpa_keypair(p, seed).unwrap().1.len() == p.spec_poly_vec_bytes(),
{
    let t = spec_public_vec(p, seed).unwrap();
    let s = spec_secret_vec(p, seed);
    assert forall|i: int| 0 <= i < t.len() implies (#[trigger] t[i]).len() == 256 by {}
    assert forall|i: int| 0 <= i < s.len() implies (#[trigger] s[i]).len() == 256 by {
        crate::ntt::lemma_ntt_len(
            spec_noise_vec(spec_sigma(seed), 0, p.k as int, p.eta1 as int)[i],
        );
    }
    crate::polyvec::lemma_polyvec_to_bytes_len(t);
    crate::polyvec::lemma_polyvec_to_bytes_len(s);
}

/// Generates a key pair of the encryption scheme from a 32-byte seed.
/// Returns the public and the secret key, or nothing in the case that
/// uniform sampling of a matrix entry ran out of attempts.  The noise seed
/// and the secret and error vectors are wiped before the function returns.
pub fn indcpa_keypair(params: &ParamSet, seed: &[u8; 32]) -> (r: Option<(Vec<u8>, Vec<u8>)>)
    requires
        params.wf(),
    ensures
        r is Some <==> spec_matrix_ok(spec_rho(seed@), params.k as int),
        match r {
            Some((pk, sk)) => {
                &&& spec_indcpa_keypair(*params, seed@) == Some((pk@, sk@))
                &&& pk@.len() == params.spec_public_key_bytes()
                &&& sk@.len() == params.spec_poly_vec_bytes()
            },
            None => spec_indcpa_keypair(*params, seed@) is None,
        },
{
    let k = params.k;
    let mut expanded = g(seed.as_slice());
    let rho = copy_range(expanded.as_slice(), 0, 32);
    let mut sigma = copy_range(expanded.as_slice(), 32, 64);
    wipe(&mut expanded);
    let mut s = sample_noise_vec(sigma.as_slice(), 0, k, params.eta1);
    let mut e = sample_noise_vec(sigma.as_slice(), k as u8, k, params.eta1);
    wipe(sigma.as_mut_slice());
    let mut s_hat = ntt_vec(&s);
    let mut e_hat = ntt_vec(&e);
    wipe_polys(&mut s);
    wipe_polys(&mut e);
    let mut prod = match mat_vec_mul(rho.as_slice(), k, false, &s_hat) {
        Some(prod) => prod,
        None => {
            wipe_polys(&mut s_hat);
            wipe_polys(&mut e_hat);
            return None;
        },
    };
    let mut t: Vec<Poly> = Vec::new();
    let mut i: usize = 0;
    while i < k
        invariant
            i <= k,
            prod@.len() == k,
            e_hat@.len() == k,
            polys_wf(prod@),
            polys_wf(e_hat@),
            polys_in(prod@, Domain::Evaluation),
            polys_in(e_hat@, Domain::Evaluation),
            t@.len() == i,
            polys_wf(t@),
            polys_in(t@, Domain::Coefficient),
            forall|j: int|
                0 <= j < i ==> (#[trigger] t@[j])@ == spec_inv_ntt(
                    spec_poly_add(prod@[j]@, e_hat@[j]@),
                ),
        decreases k - i,
    {
        let mut p = prod[i];
        assert(prod@[i as int].wf() && prod@[i as int].domain == Domain::Evaluation);
        assert(e_hat@[i as int].wf() && e_hat@[i as int].domain == Domain::Evaluation);
        p.add(&e_hat[i]);
        p.inv_ntt();
        t.push(p);
        i += 1;
    }
    proof {
        assert(polys_view(t@) =~= spec_add_inv_ntt_vec(polys_view(prod@), polys_view(e_hat@)));
    }
    let mut pk = polyvec_to_bytes(&t);
    append_bytes(&mut pk, rho.as_slice());
    let sk = polyvec_to_bytes(&s_hat);
    wipe_polys(&mut s_hat);
    wipe_polys(&mut e_hat);
    wipe_polys(&mut prod);
    Some((pk, sk))
}

} // verus!
