//! Encryption of the scheme that the mechanism is built on.
use vstd::prelude::*;
use crate::bytes::{append_bytes, copy_range};
use crate::compression::spec_poly_compress;
use crate::ntt::spec_inv_ntt;
use crate::params::ParamSet;
use crate::poly::{Domain, Poly, spec_poly_add};
use crate::polyvec::{
    dot,
    mat_vec_mul,
    ntt_vec,
    polys_in,
    polys_view,
    polys_wf,
    polyvec_compress,
    polyvec_from_bytes,
    sample_noise,
    sample_noise_vec,
    spec_dot,
    spec_mat_vec,
    spec_matrix_ok,
    spec_noise,
    spec_noise_vec,
    spec_ntt_vec,
    spec_polyvec_compress,
    spec_polyvec_from_bytes,
    wipe_polys,
};
use crate::utils::{poly_compress, poly_from_msg, spec_poly_from_msg};

verus! {

/// The vector `t` of a public key, in the coefficient domain.
pub open spec fn spec_pk_vec(p: ParamSet, pk: Seq<u8>) -> Seq<Seq<int>> {
    spec_polyvec_from_bytes(pk.subrange(0, 416 * p.k), p.k as int)
}

/// The public seed of a public key.
pub open spec fn spec_pk_rho(p: ParamSet, pk: Seq<u8>) -> Seq<u8> {
    pk.subrange(416 * p.k, 416 * p.k + 32)
}

/// The ephemeral secret `r` in the evaluation domain: noise of width `eta1`
/// with the nonces `0, ..., k - 1`, transformed.
pub open spec fn spec_enc_r(p: ParamSet, coins: Seq<u8>) -> Seq<Seq<int>> {
    spec_ntt_vec(spec_noise_vec(coins, 0, p.k as int, p.eta1 as int))
}

/// The vector `u` of a ciphertext for the product `prod` of the transposed
/// matrix with `r`: each polynomial taken back to the coefficient domain,
/// plus the error `e1`, noise of width `eta2` with the nonces
/// `k, ..., 2k - 1`.
pub open spec fn spec_enc_u(p: ParamSet, coins: Seq<u8>, prod: Seq<Seq<int>>) -> Seq<Seq<int>> {
    Seq::new(
        p.k as nat,
        |i: int|
            spec_poly_add(
                spec_inv_ntt(prod[i]),
                spec_noise_vec(coins, p.k as int, p.k as int, p.eta2 as int)[i],
            ),
    )
}

/// The polynomial `v` of a ciphertext: `t * r` taken back to the
/// coefficient domain, plus the error `e2`, noise of width `eta2` with the
/// nonce `2k`, plus the encoded message.
pub open spec fn spec_enc_v(p: ParamSet, pk: Seq<u8>, msg: Seq<u8>, coins: Seq<u8>) -> Seq<int> {
    spec_poly_add(
        spec_poly_add(
            spec_inv_ntt(
                spec_dot(spec_ntt_vec(spec_pk_vec(p, pk)), spec_enc_r(p, coins), p.k as int),
            ),
            spec_noise(coins, 2 * p.k, p.eta2 as int),
        ),
        spec_poly_from_msg(msg),
    )
}

/// The ciphertext of a message under a public key with the given coins:
/// `u` compressed to `du` bits per coefficient, then `v` compressed to `dv`
/// bits; nothing if the public seed does not give the whole matrix.
pub open spec fn spec_indcpa_enc(p: ParamSet, pk: Seq<u8>, msg: Seq<u8>, coins: Seq<u8>) -> Option<
    Seq<u8>,
> {
    match spec_mat_vec(spec_pk_rho(p, pk), p.k as int, true, spec_enc_r(p, coins)) {
        Some(prod) => Some(
            spec_polyvec_compress(spec_enc_u(p, coins, prod), p.du as int) + spec_poly_compress(
                spec_enc_v(p, pk, msg, coins),
                p.dv as int,
            ),
        ),
        None => None,
    }
}

/// Encrypts a 32-byte message under a public key, with all randomness
/// derived from `coins`.  Returns the ciphertext, or nothing in the case
/// that uniform sampling of a matrix entry ran out of attempts.  The
/// ephemeral secret, the errors and the encoded message are wiped before
/// the function returns.
pub fn indcpa_enc(params: &ParamSet, pk: &[u8], msg: &[u8; 32], coins: &[u8; 32]) -> (r: Option<
    Vec<u8>,
>)
    requires
        params.wf(),
        pk@.len() == params.spec_public_key_bytes(),
    ensures
        r is Some <==> spec_matrix_ok(spec_pk_rho(*params, pk@), params.k as int),
        match r {
            Some(ct) => {
                &&& spec_indcpa_enc(*params, pk@, msg@, coins@) == Some(ct@)
                &&& ct@.len() == params.spec_ciphertext_bytes()
            },
            None => spec_indcpa_enc(*params, pk@, msg@, coins@) is None,
        },
{
    let k = params.k;
    let vec_bytes = params.poly_vec_bytes();
    let t_bytes = copy_range(pk, 0, vec_bytes);
    let rho = copy_range(pk, vec_bytes, vec_bytes + 32);
    let t = polyvec_from_bytes(t_bytes.as_slice(), k, Domain::Coefficient);
    let t_hat = ntt_vec(&t);

    let mut r_vec = sample_noise_vec(coins.as_slice(), 0, k, params.eta1);
    let mut e1 = sample_noise_vec(coins.as_slice(), k as u8, k, params.eta2);
    let mut e2 = sample_noise(coins.as_slice(), (2 * k) as u8, params.eta2);
    let mut r_hat = ntt_vec(&r_vec);
    wipe_polys(&mut r_vec);

    let mut prod = match mat_vec_mul(rho.as_slice(), k, true, &r_hat) {
        Some(prod) => prod,
        None => {
            wipe_polys(&mut r_hat);
            wipe_polys(&mut e1);
            e2.wipe();
            return None;
        },
    };
    let mut u: Vec<Poly> = Vec::new();
    let mut i: usize = 0;
    while i < k
        invariant
            i <= k,
            prod@.len() == k,
            e1@.len() == k,
            polys_wf(prod@),
            polys_wf(e1@),
            polys_in(prod@, Domain::Evaluation),
            polys_in(e1@, Domain::Coefficient),
            u@.len() == i,
            polys_wf(u@),
            polys_in(u@, Domain::Coefficient),
            forall|j: int|
                0 <= j < i ==> (#[trigger] u@[j])@ == spec_poly_add(
                    spec_inv_ntt(prod@[j]@),
                    e1@[j]@,
                ),
        decreases k - i,
    {
        let mut p = prod[i];
        assert(prod@[i as int].wf() && prod@[i as int].domain == Domain::Evaluation);
        assert(e1@[i as int].wf() && e1@[i as int].domain == Domain::Coefficient);
        p.inv_ntt();
        p.add(&e1[i]);
        u.push(p);
        i += 1;
    }
    proof {
        let e1v = spec_noise_vec(coins@, k as int, k as int, params.eta2 as int);
        assert(polys_view(e1@) == e1v);
        assert forall|j: int| 0 <= j < k implies (#[trigger] u@[j])@ == spec_enc_u(
            *params,
            coins@,
            polys_view(prod@),
        )[j] by {
            assert(polys_view(e1@)[j] == e1@[j]@);
            assert(polys_view(prod@)[j] == prod@[j]@);
        }
        assert(polys_view(u@) =~= spec_enc_u(*params, coins@, polys_view(prod@)));
    }

    let mut v = dot(&t_hat, &r_hat);
    v.inv_ntt();
    v.add(&e2);
    let mut m = poly_from_msg(msg);
    v.add(&m);

    let mut ct = polyvec_compress(&u, params.du);
    let v_bytes = poly_compress(&v, params.dv);
    append_bytes(&mut ct, v_bytes.as_slice());
    wipe_polys(&mut r_hat);
    wipe_polys(&mut e1);
    wipe_polys(&mut prod);
    wipe_polys(&mut u);
    e2.wipe();
    m.wipe();
    v.wipe();
    proof {
        assert(32 * params.du * k == 32 * (params.du * k)) by (nonlinear_arith);
        assert(32 * params.du * params.k == 32 * (params.du * k)) by (nonlinear_arith)
            requires
                k == params.k,
        ;
    }
    Some(ct)
}

} // verus!
