//! Decryption of the scheme that the mechanism is built on.
use vstd::prelude::*;
use crate::bytes::copy_range;
use crate::compression::spec_poly_decompress;
use crate::ntt::spec_inv_ntt;
use crate::params::ParamSet;
use crate::poly::{Domain, Poly, spec_poly_sub};
use crate::polyvec::{
    dot,
    ntt_vec,
    polyvec_decompress,
    polyvec_from_bytes,
    spec_dot,
    spec_ntt_vec,
    spec_polyvec_decompress,
    spec_polyvec_from_bytes,
    wipe_polys,
};
use crate::utils::{poly_decompress, poly_to_msg, spec_poly_to_msg};

verus! {

/// The vector `u` that a ciphertext stands for, in the coefficient domain.
pub open spec fn spec_ct_u(p: ParamSet, ct: Seq<u8>) -> Seq<Seq<int>> {
    spec_polyvec_decompress(ct.subrange(0, 32 * p.du * p.k), p.k as int, p.du as int)
}

/// The polynomial `v` that a ciphertext stands for.
pub open spec fn spec_ct_v(p: ParamSet, ct: Seq<u8>) -> Seq<int> {
    spec_poly_decompress(
        ct.subrange(32 * p.du * p.k, 32 * p.du * p.k + 32 * p.dv),
        p.dv as int,
    )
}

/// The polynomial that decryption decodes: `v - s * u`, with the product
/// taken in the evaluation domain and brought back.
pub open spec fn spec_dec_poly(p: ParamSet, sk: Seq<u8>, ct: Seq<u8>) -> Seq<int> {
    let s_hat = spec_polyvec_from_bytes(sk, p.k as int);
    let u_hat = spec_ntt_vec(spec_ct_u(p, ct));
    spec_poly_sub(spec_ct_v(p, ct), spec_inv_ntt(spec_dot(s_hat, u_hat, p.k as int)))
}

/// The message that a ciphertext decrypts to under a secret key:
/// `v - s * u` decoded bit by bit.
pub open spec fn spec_indcpa_dec(p: ParamSet, sk: Seq<u8>, ct: Seq<u8>) -> Seq<u8> {
    spec_poly_to_msg(spec_dec_poly(p, sk, ct))
}

/// Decrypts a ciphertext with the serialized secret vector.  Decryption
/// always gives 32 bytes; whether they are the message that was encrypted
/// is for the caller to find out.  The secret vector and what was computed
/// from it are wiped before the function returns.
pub fn indcpa_dec(params: &ParamSet, sk: &[u8], ct: &[u8]) -> (msg: [u8; 32])
    requires
        params.wf(),
        sk@.len() == params.spec_poly_vec_bytes(),
        ct@.len() == params.spec_ciphertext_bytes(),
    ensures
        msg@ == spec_indcpa_dec(*params, sk@, ct@),
{
    let k = params.k;
    assert(0 <= 32 * params.du * k <= 32 * 11 * 4) by (nonlinear_arith)
        requires
            0 <= params.du <= 11,
            0 <= k <= 4,
    ;
    let u_len = 32 * params.du * k;
    let u_bytes = copy_range(ct, 0, u_len);
    let v_bytes = copy_range(ct, u_len, u_len + 32 * params.dv);
    let u = polyvec_decompress(u_bytes.as_slice(), k, params.du);
    let mut v = Poly::new();
    poly_decompress(v_bytes.as_slice(), params.dv, &mut v);
    let mut s_hat = polyvec_from_bytes(sk, k, Domain::Evaluation);
    let u_hat = ntt_vec(&u);
    let mut mp = dot(&s_hat, &u_hat);
    mp.inv_ntt();
    v.sub(&mp);
    let msg = poly_to_msg(&v);
    wipe_polys(&mut s_hat);
    mp.wipe();
    v.wipe();
    msg
}

} // verus!
