//! Correctness of decryption: what decryption decodes is the encoded
//! message plus a noise polynomial, and decoding recovers the message
//! wherever the noise stays below a quarter of the modulus.
use vstd::prelude::*;
use vstd::arithmetic::power2::lemma2_to64;
use crate::bits::{
    bits_of_bytes,
    bits_of_words,
    byte_stream_bit,
    lemma_bit_range,
    lemma_byte_field,
    spec_pack,
};
use crate::compression::{
    lemma_poly_compress_error,
    spec_distance,
    spec_poly_compress,
    spec_poly_decompress,
};
use crate::convolution::{lemma_pointwise_mul_is_product, spec_split_product};
use crate::decaps::{spec_ct_u, spec_ct_v, spec_dec_poly, spec_indcpa_dec};
use crate::encaps::{spec_enc_r, spec_enc_u, spec_enc_v, spec_indcpa_enc, spec_pk_rho, spec_pk_vec};
use crate::field::{canonical, lemma_mul_mod};
use crate::hash::spec_h;
use crate::kem::{
    lemma_decaps_encaps,
    lemma_secret_key_parts,
    spec_coins,
    spec_decaps,
    spec_encaps,
    spec_keygen,
};
use crate::keygen::{
    spec_error_vec,
    spec_indcpa_keypair,
    spec_public_vec,
    spec_rho,
    spec_secret_vec,
    spec_sigma,
};
use crate::linearity::{
    lemma_inv_ntt_combine,
    lemma_inv_ntt_is_poly,
    lemma_ntt_combine,
    lemma_ntt_inv_ntt,
    lemma_ntt_is_poly,
    lemma_transforms_add_sub,
    spec_combine,
};
use crate::ntt::{spec_inv_ntt, spec_ntt};
use crate::params::ParamSet;
use crate::poly::{is_poly, spec_pointwise_mul, spec_poly_add, spec_poly_sub, spec_zero};
use crate::polyvec::{
    lemma_polyvec_compress_len,
    lemma_polyvec_to_bytes_len,
    spec_dot,
    spec_mat_vec,
    spec_matrix_ok,
    spec_matrix_row,
    spec_noise,
    spec_noise_vec,
    spec_ntt_vec,
    spec_polyvec_compress,
    spec_polyvec_decompress,
    spec_polyvec_from_bytes,
    spec_polyvec_to_bytes,
};
use crate::sums::{
    lemma_row_congruent,
    lemma_row_linear,
    lemma_row_scale,
    lemma_sum2_of_rows,
    lemma_sum2_transpose,
    row_sum,
    sum2,
};
use crate::utils::{
    lemma_poly_bytes_round_trip,
    spec_msg_bit,
    spec_poly_from_msg,
    spec_poly_to_bytes,
    spec_poly_to_msg,
};

verus! {

/// Whether `v` is a vector of `n` polynomials with coefficients in
/// `[0, 3329)`.
pub open spec fn is_poly_vec(v: Seq<Seq<int>>, n: int) -> bool {
    v.len() == n && forall|i: int| 0 <= i < n ==> is_poly(#[trigger] v[i])
}

/// The bits of a byte string, packed one to a word, are the byte string.
proof fn lemma_bits_of_single_bits(msg: Seq<u8>, bits: Seq<int>, start: int, n: int)
    requires
        0 <= start,
        0 <= n,
        start + n <= bits.len(),
        forall|i: int| 0 <= i < bits.len() ==> #[trigger] bits[i] == byte_stream_bit(msg, i),
    ensures
        bits_of_words(bits, 1, start, n) == bits_of_bytes(msg, start, n),
    decreases n,
{
    if n > 0 {
        lemma_bits_of_single_bits(msg, bits, start + 1, n - 1);
        lemma_bit_range(msg[start / 8] as int, start % 8);
        assert(start / 1 == start && start % 1 == 0);
        assert(bits[start] == byte_stream_bit(msg, start));
    }
}

/// Packing the bits of a message gives the message back.
proof fn lemma_pack_message_bits(msg: Seq<u8>)
    requires
        msg.len() == 32,
    ensures
        spec_pack(Seq::new(256, |i: int| byte_stream_bit(msg, i)), 1) == msg,
{
    let bits = Seq::new(256, |i: int| byte_stream_bit(msg, i));
    let packed = spec_pack(bits, 1);
    lemma2_to64();
    assert(packed.len() == 32);
    assert forall|k: int| 0 <= k < 32 implies #[trigger] packed[k] == msg[k] by {
        lemma_bits_of_single_bits(msg, bits, 8 * k, 8);
        lemma_byte_field(msg, k, 0, 8, 1, 256);
    }
    assert(packed =~= msg);
}

/// Decoding tolerates noise: a message encoded as a polynomial and
/// disturbed, coefficient by coefficient, by less than a quarter of the
/// modulus decodes to the message.
pub proof fn lemma_decode_tolerates_noise(msg: Seq<u8>, noise: Seq<int>)
    requires
        msg.len() == 32,
        is_poly(noise),
        forall|i: int| 0 <= i < 256 ==> spec_distance(#[trigger] noise[i], 0) <= 831,
    ensures
        spec_poly_to_msg(spec_poly_add(spec_poly_from_msg(msg), noise)) == msg,
{
    let w = spec_poly_add(spec_poly_from_msg(msg), noise);
    let decoded = Seq::new(256, |i: int| spec_msg_bit(w[i]));
    let bits = Seq::new(256, |i: int| byte_stream_bit(msg, i));
    assert forall|i: int| 0 <= i < 256 implies #[trigger] decoded[i] == bits[i] by {
        lemma_bit_range(msg[i / 8] as int, i % 8);
        assert(canonical(noise[i]));
        assert(spec_distance(noise[i], 0) <= 831);
    }
    assert(decoded =~= bits);
    lemma_pack_message_bits(msg);
}

/// Chunk `i` of a serialized vector is the serialization of polynomial `i`.
proof fn lemma_polyvec_to_bytes_chunk(v: Seq<Seq<int>>, i: int)
    requires
        forall|j: int| 0 <= j < v.len() ==> (#[trigger] v[j]).len() == 256,
        0 <= i < v.len(),
    ensures
        spec_polyvec_to_bytes(v).subrange(416 * i, 416 * i + 416) == spec_poly_to_bytes(v[i]),
    decreases v.len(),
{
    let head = v.drop_last();
    lemma_polyvec_to_bytes_len(head);
    let all = spec_polyvec_to_bytes(v);
    let front = spec_polyvec_to_bytes(head);
    let last = spec_poly_to_bytes(v.last());
    assert(last.len() == 416);
    assert(all == front + last);
    if i == v.len() - 1 {
        assert(all.subrange(416 * i, 416 * i + 416) =~= last);
    } else {
        lemma_polyvec_to_bytes_chunk(head, i);
        assert(all.subrange(416 * i, 416 * i + 416) =~= front.subrange(416 * i, 416 * i + 416));
    }
}

/// Reading a serialized vector gives the vector back.
pub proof fn lemma_polyvec_bytes_round_trip(v: Seq<Seq<int>>, n: int)
    requires
        is_poly_vec(v, n),
    ensures
        spec_polyvec_from_bytes(spec_polyvec_to_bytes(v), n) == v,
{
    let bytes = spec_polyvec_to_bytes(v);
    let back = spec_polyvec_from_bytes(bytes, n);
    assert forall|i: int| 0 <= i < n implies #[trigger] back[i] == v[i] by {
        assert(is_poly(v[i]));
        lemma_polyvec_to_bytes_chunk(v, i);
        lemma_poly_bytes_round_trip(v[i]);
    }
    assert(back =~= v);
}

/// Chunk `i` of a compressed vector is the compressed polynomial `i`.
proof fn lemma_polyvec_compress_chunk(v: Seq<Seq<int>>, d: int, i: int)
    requires
        1 <= d <= 11,
        0 <= i < v.len(),
    ensures
        spec_polyvec_compress(v, d).subrange(32 * d * i, 32 * d * i + 32 * d) == spec_poly_compress(
            v[i],
            d,
        ),
    decreases v.len(),
{
    let head = v.drop_last();
    lemma_polyvec_compress_len(head, d);
    let all = spec_polyvec_compress(v, d);
    let front = spec_polyvec_compress(head, d);
    let last = spec_poly_compress(v.last(), d);
    assert((256 * d) / 8 == 32 * d);
    assert(last.len() == 32 * d);
    assert(all == front + last);
    assert(0 <= 32 * d * i && 32 * d * i + 32 * d <= 32 * d * v.len()) by (nonlinear_arith)
        requires
            0 <= i,
            i + 1 <= v.len(),
            1 <= d,
    ;
    if i == v.len() - 1 {
        assert(all.subrange(32 * d * i, 32 * d * i + 32 * d) =~= last);
    } else {
        lemma_polyvec_compress_chunk(head, d, i);
        assert(32 * d * i + 32 * d <= 32 * d * head.len()) by (nonlinear_arith)
            requires
                i + 1 <= head.len(),
                1 <= d,
        ;
        assert(all.subrange(32 * d * i, 32 * d * i + 32 * d) =~= front.subrange(
            32 * d * i,
            32 * d * i + 32 * d,
        ));
    }
}

/// Decompressing a compressed vector decompresses every compressed
/// polynomial.
pub proof fn lemma_polyvec_decompress_compress(v: Seq<Seq<int>>, n: int, d: int)
    requires
        1 <= d <= 11,
        v.len() == n,
    ensures
        spec_polyvec_decompress(spec_polyvec_compress(v, d), n, d) == Seq::new(
            n as nat,
            |i: int| spec_poly_decompress(spec_poly_compress(v[i], d), d),
        ),
{
    let l = spec_polyvec_decompress(spec_polyvec_compress(v, d), n, d);
    let r = Seq::new(n as nat, |i: int| spec_poly_decompress(spec_poly_compress(v[i], d), d));
    assert forall|i: int| 0 <= i < n implies #[trigger] l[i] == r[i] by {
        lemma_polyvec_compress_chunk(v, d, i);
    }
    assert(l =~= r);
}


/// The terms of coefficient `c` of the sum of products of two vectors.
pub open spec fn dot_term(a: Seq<Seq<int>>, b: Seq<Seq<int>>, c: int) -> spec_fn(int, int) -> int {
    |j: int, i: int| a[i][c] * b[i][c]
}

/// Coefficient `c` of the sum of products of two vectors is, modulo 3329,
/// the sum of the products of the coefficients `c`.
proof fn lemma_dot_is_sum(a: Seq<Seq<int>>, b: Seq<Seq<int>>, n: int, c: int)
    requires
        0 <= n,
        0 <= c < 256,
    ensures
        (spec_dot(a, b, n)[c] - row_sum(dot_term(a, b, c), 0, 0, n)) % 3329 == 0,
    decreases n,
{
    if n > 0 {
        lemma_dot_is_sum(a, b, n - 1, c);
        let prev = spec_dot(a, b, n - 1);
        let prod = spec_pointwise_mul(a[n - 1], b[n - 1]);
        assert(spec_dot(a, b, n)[c] == (prev[c] + prod[c]) % 3329);
        assert(prod[c] == (a[n - 1][c] * b[n - 1][c]) % 3329);
        assert(dot_term(a, b, c)(0, n - 1) == a[n - 1][c] * b[n - 1][c]);
    }
}

/// `(x + y) r` for `t` congruent to `x + y`.
proof fn lemma_scaled_sum(t: int, d: int, x: int, e: int, r: int)
    requires
        (t - (d + e)) % 3329 == 0,
        (d - x) % 3329 == 0,
    ensures
        (t * r - (r * x + e * r)) % 3329 == 0,
{
    lemma_mul_mod(t, r);
    lemma_mul_mod(x + e, r);
    assert(t % 3329 == (x + e) % 3329);
    assert((x + e) * r == r * x + e * r) by (nonlinear_arith);
}

/// The sum over `i` of `t_i r_i`, where `t_i` is congruent to the sum over
/// `j` of `a_ij s_j` plus `e_i`, is congruent to the double sum of
/// `r_i a_ij s_j` plus the sum of `e_i r_i`.
proof fn lemma_dot_expand(
    a: Seq<Seq<Seq<int>>>,
    s: Seq<Seq<int>>,
    r: Seq<Seq<int>>,
    e: Seq<Seq<int>>,
    t: Seq<Seq<int>>,
    k: int,
    c: int,
) -> (m: spec_fn(int, int) -> int)
    requires
        0 <= k,
        0 <= c < 256,
        forall|i: int|
            0 <= i < k ==> (#[trigger] t[i][c] - (spec_dot(a[i], s, k)[c] + e[i][c])) % 3329 == 0,
    ensures
        forall|i: int, j: int| #[trigger] m(i, j) == r[i][c] * (a[i][j][c] * s[j][c]),
        (spec_dot(t, r, k)[c] - (sum2(m, 0, k, 0, k) + spec_dot(e, r, k)[c])) % 3329 == 0,
{
    let m = |i: int, j: int| r[i][c] * (a[i][j][c] * s[j][c]);
    let rows = |j: int, i: int| row_sum(m, i, 0, k);
    let er = dot_term(e, r, c);
    let tr = dot_term(t, r, c);
    let g = |j: int, i: int| rows(j, i) + 1 * er(j, i);
    assert forall|i: int| 0 <= i < k implies (#[trigger] tr(0, 0 + i) - g(0, 0 + i)) % 3329
        == 0 by {
        let inner = dot_term(a[i], s, c);
        lemma_dot_is_sum(a[i], s, k, c);
        assert forall|l: int| 0 <= l < k implies #[trigger] m(i, l) == r[i][c] * inner(0, l) by {}
        lemma_row_scale(m, i, inner, 0, r[i][c], k);
        assert((t[i][c] - (spec_dot(a[i], s, k)[c] + e[i][c])) % 3329 == 0);
        lemma_scaled_sum(
            t[i][c],
            spec_dot(a[i], s, k)[c],
            row_sum(inner, 0, 0, k),
            e[i][c],
            r[i][c],
        );
    }
    lemma_row_congruent(tr, 0, 0, g, 0, 0, k);
    lemma_row_linear(g, rows, er, 1, 0, k);
    lemma_sum2_of_rows(m, rows, k, k);
    lemma_dot_is_sum(t, r, k, c);
    lemma_dot_is_sum(e, r, k, c);
    assert(1 * row_sum(er, 0, 0, k) == row_sum(er, 0, 0, k));
    m
}

/// Exchange of the matrix between the two sides of a product: with `t`
/// congruent to `A s + e` and `u` congruent to `A^T r + f`, the sums of
/// products `t . r - s . u` and `e . r - s . f` agree in every coefficient.
proof fn lemma_dot_exchange(
    a: Seq<Seq<Seq<int>>>,
    at: Seq<Seq<Seq<int>>>,
    s: Seq<Seq<int>>,
    r: Seq<Seq<int>>,
    e: Seq<Seq<int>>,
    f: Seq<Seq<int>>,
    t: Seq<Seq<int>>,
    u: Seq<Seq<int>>,
    k: int,
    c: int,
)
    requires
        0 <= k,
        0 <= c < 256,
        forall|i: int, j: int| 0 <= i < k && 0 <= j < k ==> #[trigger] at[j][i] == a[i][j],
        forall|i: int|
            0 <= i < k ==> (#[trigger] t[i][c] - (spec_dot(a[i], s, k)[c] + e[i][c])) % 3329 == 0,
        forall|j: int|
            0 <= j < k ==> (#[trigger] u[j][c] - (spec_dot(at[j], r, k)[c] + f[j][c])) % 3329 == 0,
    ensures
        (spec_dot(t, r, k)[c] - spec_dot(u, s, k)[c] - (spec_dot(e, r, k)[c] - spec_dot(f, s, k)[c]))
            % 3329 == 0,
{
    let m = lemma_dot_expand(a, s, r, e, t, k, c);
    let n = lemma_dot_expand(at, r, s, f, u, k, c);
    assert forall|i: int, j: int| 0 <= i < k && 0 <= j < k implies #[trigger] m(i, j) == n(
        j,
        i,
    ) by {
        assert(at[j][i] == a[i][j]);
        let x = a[i][j][c];
        assert(r[i][c] * (x * s[j][c]) == s[j][c] * (x * r[i][c])) by (nonlinear_arith);
    }
    lemma_sum2_transpose(m, n, k, k);
}


/// The sum of products of two vectors has 256 coefficients in `[0, 3329)`.
proof fn lemma_dot_is_poly(a: Seq<Seq<int>>, b: Seq<Seq<int>>, n: int)
    ensures
        is_poly(spec_dot(a, b, n)),
{
    let d = spec_dot(a, b, n);
    if n > 0 {
        assert forall|i: int| 0 <= i < 256 implies canonical(#[trigger] d[i]) by {}
    } else {
        assert forall|i: int| 0 <= i < 256 implies canonical(#[trigger] d[i]) by {}
    }
}

/// The sum of products does not depend on the order of the two vectors.
proof fn lemma_dot_commutes(a: Seq<Seq<int>>, b: Seq<Seq<int>>, n: int)
    ensures
        spec_dot(a, b, n) == spec_dot(b, a, n),
    decreases n,
{
    if n > 0 {
        lemma_dot_commutes(a, b, n - 1);
        let x = spec_pointwise_mul(a[n - 1], b[n - 1]);
        let y = spec_pointwise_mul(b[n - 1], a[n - 1]);
        assert forall|i: int| 0 <= i < 256 implies #[trigger] x[i] == y[i] by {
            assert(a[n - 1][i] * b[n - 1][i] == b[n - 1][i] * a[n - 1][i]) by (nonlinear_arith);
        }
        assert(x =~= y);
    }
}

/// Adding the difference back: `x + (y - x)` is `y`.
proof fn lemma_add_difference(x: Seq<int>, y: Seq<int>)
    requires
        is_poly(y),
    ensures
        spec_poly_add(x, spec_poly_sub(y, x)) == y,
{
    let r = spec_poly_add(x, spec_poly_sub(y, x));
    assert forall|i: int| 0 <= i < 256 implies #[trigger] r[i] == y[i] by {
        assert(canonical(y[i]));
    }
    assert(r =~= y);
}

/// What compression and decompression to `d` bits add to a polynomial.
pub open spec fn spec_rounding_error(x: Seq<int>, d: int) -> Seq<int> {
    spec_poly_sub(spec_poly_decompress(spec_poly_compress(x, d), d), x)
}

/// The sum of the products of the first `n` polynomials of `a` with those
/// of `b`, all in the coefficient domain, with the product that the
/// transform realizes.
pub open spec fn spec_vec_product(a: Seq<Seq<int>>, b: Seq<Seq<int>>, n: int) -> Seq<int>
    decreases n,
{
    if n <= 0 {
        spec_zero()
    } else {
        spec_poly_add(spec_vec_product(a, b, n - 1), spec_split_product(a[n - 1], b[n - 1]))
    }
}

/// The errors of the ciphertext with the rounding errors of `u` added:
/// polynomial `i` is `e1[i]` plus what compression does to `u[i]`.
pub open spec fn spec_ciphertext_errors(p: ParamSet, seed: Seq<u8>, coins: Seq<u8>) -> Seq<
    Seq<int>,
> {
    let k = p.k as int;
    let prod = spec_mat_vec(spec_rho(seed), k, true, spec_enc_r(p, coins)).unwrap();
    let u = spec_enc_u(p, coins, prod);
    let e1 = spec_noise_vec(coins, k, k, p.eta2 as int);
    Seq::new(k as nat, |i: int| spec_poly_add(e1[i], spec_rounding_error(u[i], p.du as int)))
}

/// The noise of a decryption, in the coefficient domain: with the secret
/// `s` and the error `e` of the key, the ephemeral secret `r` and the
/// errors `e1` and `e2` of the ciphertext, and the rounding errors `cu` and
/// `cv` of its two parts, the polynomial
/// `e2 + cv + e . r - s . (e1 + cu)`.
pub open spec fn spec_decryption_noise(p: ParamSet, seed: Seq<u8>, msg: Seq<u8>, coins: Seq<u8>)
    -> Seq<int> {
    let k = p.k as int;
    let pk = spec_indcpa_keypair(p, seed).unwrap().0;
    let s = spec_noise_vec(spec_sigma(seed), 0, k, p.eta1 as int);
    let e = spec_noise_vec(spec_sigma(seed), k, k, p.eta1 as int);
    let r = spec_noise_vec(coins, 0, k, p.eta1 as int);
    let e2 = spec_noise(coins, 2 * k, p.eta2 as int);
    let v = spec_enc_v(p, pk, msg, coins);
    spec_poly_add(
        spec_poly_add(e2, spec_rounding_error(v, p.dv as int)),
        spec_poly_sub(
            spec_vec_product(e, r, k),
            spec_vec_product(s, spec_ciphertext_errors(p, seed, coins), k),
        ),
    )
}

/// The transforms of zero are zero.
proof fn lemma_transforms_of_zero()
    ensures
        spec_ntt(spec_zero()) == spec_zero(),
        spec_inv_ntt(spec_zero()) == spec_zero(),
{
    let z = spec_zero();
    assert(spec_combine(z, z, 0, 0) =~= z);
    lemma_ntt_combine(z, z, 0, 0);
    lemma_inv_ntt_combine(z, z, 0, 0);
    assert forall|i: int| 0 <= i < 256 implies (0 * spec_ntt(z)[i] + 0 * spec_ntt(z)[i]) % 3329
        == 0 by {
        assert(0 * spec_ntt(z)[i] == 0);
    }
    assert forall|i: int| 0 <= i < 256 implies (0 * spec_inv_ntt(z)[i] + 0 * spec_inv_ntt(z)[i])
        % 3329 == 0 by {
        assert(0 * spec_inv_ntt(z)[i] == 0);
    }
    assert(spec_combine(spec_ntt(z), spec_ntt(z), 0, 0) =~= z);
    assert(spec_combine(spec_inv_ntt(z), spec_inv_ntt(z), 0, 0) =~= z);
}

/// The sum of coefficient-wise products of two transformed vectors,
/// transformed back, is the sum of the products of the polynomials.
proof fn lemma_vec_product(a: Seq<Seq<int>>, b: Seq<Seq<int>>, n: int)
    requires
        0 <= n <= a.len(),
        n <= b.len(),
        forall|i: int| 0 <= i < n ==> (#[trigger] a[i]).len() == 256,
        forall|i: int| 0 <= i < n ==> (#[trigger] b[i]).len() == 256,
    ensures
        spec_inv_ntt(spec_dot(spec_ntt_vec(a), spec_ntt_vec(b), n)) == spec_vec_product(a, b, n),
    decreases n,
{
    if n > 0 {
        lemma_vec_product(a, b, n - 1);
        let ah = spec_ntt_vec(a);
        let bh = spec_ntt_vec(b);
        let prev = spec_dot(ah, bh, n - 1);
        let last = spec_pointwise_mul(ah[n - 1], bh[n - 1]);
        lemma_dot_is_poly(ah, bh, n - 1);
        assert(a[n - 1].len() == 256 && b[n - 1].len() == 256);
        lemma_transforms_add_sub(prev, last);
        lemma_pointwise_mul_is_product(a[n - 1], b[n - 1]);
    } else {
        lemma_transforms_of_zero();
    }
}

/// The parts of a generated key pair: the public key holds the vector `t`
/// and the public seed, the secret key holds the vector `s`, and each
/// polynomial of `t`, transformed, is a row of the matrix times `s`, plus
/// the error.
proof fn lemma_key_parts(p: ParamSet, seed: Seq<u8>)
    requires
        p.wf(),
        spec_indcpa_keypair(p, seed) is Some,
    ensures
        ({
            let k = p.k as int;
            let (pk, sk) = spec_indcpa_keypair(p, seed).unwrap();
            let s_hat = spec_secret_vec(p, seed);
            let e_hat = spec_error_vec(p, seed);
            let rho = spec_rho(seed);
            &&& spec_matrix_ok(rho, k)
            &&& spec_pk_rho(p, pk) == rho
            &&& spec_polyvec_from_bytes(sk, k) == s_hat
            &&& is_poly_vec(s_hat, k)
            &&& is_poly_vec(e_hat, k)
            &&& spec_pk_vec(p, pk).len() == k
            &&& forall|i: int|
                0 <= i < k ==> spec_ntt(#[trigger] spec_pk_vec(p, pk)[i]) == spec_poly_add(
                    spec_dot(spec_matrix_row(rho, i, k, false), s_hat, k),
                    e_hat[i],
                )
        }),
{
    let k = p.k as int;
    let (pk, sk) = spec_indcpa_keypair(p, seed).unwrap();
    let s_hat = spec_secret_vec(p, seed);
    let e_hat = spec_error_vec(p, seed);
    let rho = spec_rho(seed);
    let prod = spec_mat_vec(rho, k, false, s_hat).unwrap();
    let t = spec_public_vec(p, seed).unwrap();
    let s = spec_noise_vec(spec_sigma(seed), 0, k, p.eta1 as int);
    let e = spec_noise_vec(spec_sigma(seed), k, k, p.eta1 as int);
    assert forall|i: int| 0 <= i < k implies is_poly(#[trigger] s_hat[i]) by {
        lemma_ntt_is_poly(s[i]);
    }
    assert forall|i: int| 0 <= i < k implies is_poly(#[trigger] e_hat[i]) by {
        lemma_ntt_is_poly(e[i]);
    }
    assert forall|i: int| 0 <= i < k implies is_poly(#[trigger] t[i]) by {
        lemma_inv_ntt_is_poly(spec_poly_add(prod[i], e_hat[i]));
    }
    assert(is_poly_vec(t, k));
    assert forall|i: int| 0 <= i < t.len() implies (#[trigger] t[i]).len() == 256 by {
        assert(is_poly(t[i]));
    }
    lemma_polyvec_to_bytes_len(t);
    let tb = spec_polyvec_to_bytes(t);
    assert(pk == tb + rho);
    assert(pk.subrange(0, 416 * k) =~= tb);
    assert(rho.len() == 32);
    assert(pk.subrange(416 * k, 416 * k + 32) =~= rho);
    lemma_polyvec_bytes_round_trip(t, k);
    lemma_polyvec_bytes_round_trip(s_hat, k);
    assert(spec_pk_vec(p, pk) == t);
    assert forall|i: int| 0 <= i < k implies spec_ntt(#[trigger] spec_pk_vec(p, pk)[i])
        == spec_poly_add(spec_dot(spec_matrix_row(rho, i, k, false), s_hat, k), e_hat[i]) by {
        let sum = spec_poly_add(prod[i], e_hat[i]);
        assert forall|c: int| 0 <= c < 256 implies canonical(#[trigger] sum[c]) by {}
        lemma_ntt_inv_ntt(sum);
        assert(t[i] == spec_inv_ntt(sum));
    }
}

/// The parts of a ciphertext: decompression gives every polynomial of `u`
/// and the polynomial `v`, each compressed and decompressed.
proof fn lemma_ciphertext_parts(p: ParamSet, u: Seq<Seq<int>>, v: Seq<int>)
    requires
        p.wf(),
        u.len() == p.k,
    ensures
        ({
            let ct = spec_polyvec_compress(u, p.du as int) + spec_poly_compress(v, p.dv as int);
            &&& spec_ct_u(p, ct) == Seq::new(
                p.k as nat,
                |i: int| spec_poly_decompress(spec_poly_compress(u[i], p.du as int), p.du as int),
            )
            &&& spec_ct_v(p, ct) == spec_poly_decompress(
                spec_poly_compress(v, p.dv as int),
                p.dv as int,
            )
        }),
{
    let du = p.du as int;
    let dv = p.dv as int;
    let k = p.k as int;
    let cu = spec_polyvec_compress(u, du);
    let cv = spec_poly_compress(v, dv);
    let ct = cu + cv;
    lemma_polyvec_compress_len(u, du);
    assert((256 * dv) / 8 == 32 * dv);
    assert(cv.len() == 32 * dv);
    assert(cu.len() == 32 * du * k);
    assert(32 * p.du * p.k == 32 * du * k);
    assert(ct.subrange(0, 32 * du * k) =~= cu);
    assert(ct.subrange(32 * du * k, 32 * du * k + 32 * dv) =~= cv);
    lemma_polyvec_decompress_compress(u, k, du);
}

/// One polynomial of `u` after compression, decompression and the
/// transform: with `pt` a polynomial of the product of the transposed
/// matrix with `r`, the transform of the decompressed polynomial is `pt`
/// plus the transform of the error and the rounding error.
proof fn lemma_transformed_u(pt: Seq<int>, e1: Seq<int>, d: int)
    requires
        is_poly(pt),
        e1.len() == 256,
        1 <= d <= 11,
    ensures
        ({
            let u = spec_poly_add(spec_inv_ntt(pt), e1);
            spec_ntt(spec_poly_decompress(spec_poly_compress(u, d), d)) == spec_poly_add(
                pt,
                spec_ntt(spec_poly_add(e1, spec_rounding_error(u, d))),
            )
        }),
{
    lemma_inv_ntt_is_poly(pt);
    let u = spec_poly_add(spec_inv_ntt(pt), e1);
    let back = spec_poly_decompress(spec_poly_compress(u, d), d);
    let cu = spec_rounding_error(u, d);
    assert(is_poly(u)) by {
        assert forall|c: int| 0 <= c < 256 implies canonical(#[trigger] u[c]) by {}
    }
    lemma_poly_compress_error(u, d);
    lemma_add_difference(u, back);
    let rest = spec_poly_add(e1, cu);
    let joined = spec_poly_add(spec_inv_ntt(pt), rest);
    assert forall|c: int| 0 <= c < 256 implies #[trigger] back[c] == joined[c] by {
        assert(canonical(back[c]));
        assert(spec_poly_add(u, cu)[c] == back[c]);
    }
    assert(back =~= joined);
    lemma_transforms_add_sub(spec_inv_ntt(pt), rest);
    lemma_ntt_inv_ntt(pt);
}

/// Exchange of the matrix, for whole polynomials: with `t = A s + e` and
/// `u = A^T r + f` in the evaluation domain, `t . r - s . u` is
/// `e . r - s . f`.
proof fn lemma_exchange_vectors(
    a: Seq<Seq<Seq<int>>>,
    at: Seq<Seq<Seq<int>>>,
    s: Seq<Seq<int>>,
    r: Seq<Seq<int>>,
    e: Seq<Seq<int>>,
    f: Seq<Seq<int>>,
    t: Seq<Seq<int>>,
    u: Seq<Seq<int>>,
    k: int,
)
    requires
        0 <= k,
        forall|i: int, j: int| 0 <= i < k && 0 <= j < k ==> #[trigger] at[j][i] == a[i][j],
        forall|i: int|
            0 <= i < k ==> #[trigger] t[i] == spec_poly_add(spec_dot(a[i], s, k), e[i]),
        forall|j: int|
            0 <= j < k ==> #[trigger] u[j] == spec_poly_add(spec_dot(at[j], r, k), f[j]),
    ensures
        spec_poly_sub(spec_dot(t, r, k), spec_dot(s, u, k)) == spec_poly_sub(
            spec_dot(e, r, k),
            spec_dot(s, f, k),
        ),
{
    let d1 = spec_dot(t, r, k);
    let d2 = spec_dot(s, u, k);
    let de = spec_dot(e, r, k);
    let df = spec_dot(s, f, k);
    lemma_dot_commutes(s, u, k);
    lemma_dot_commutes(s, f, k);
    assert forall|c: int| 0 <= c < 256 implies #[trigger] spec_poly_sub(d1, d2)[c] == spec_poly_sub(
        de,
        df,
    )[c] by {
        assert forall|i: int| 0 <= i < k implies (#[trigger] t[i][c] - (spec_dot(a[i], s, k)[c]
            + e[i][c])) % 3329 == 0 by {
            assert(t[i] == spec_poly_add(spec_dot(a[i], s, k), e[i]));
        }
        assert forall|j: int| 0 <= j < k implies (#[trigger] u[j][c] - (spec_dot(at[j], r, k)[c]
            + f[j][c])) % 3329 == 0 by {
            assert(u[j] == spec_poly_add(spec_dot(at[j], r, k), f[j]));
        }
        lemma_dot_exchange(a, at, s, r, e, f, t, u, k, c);
    }
    assert(spec_poly_sub(d1, d2) =~= spec_poly_sub(de, df));
}

/// The message and the noise: `(v + cv) - i2`, for `v = i1 + e2 + m`, is
/// `m + (e2 + cv + (i1 - i2))`.
proof fn lemma_message_plus_noise(
    i1: Seq<int>,
    i2: Seq<int>,
    e2: Seq<int>,
    m: Seq<int>,
    v_back: Seq<int>,
)
    requires
        is_poly(v_back),
    ensures
        ({
            let v = spec_poly_add(spec_poly_add(i1, e2), m);
            spec_poly_sub(v_back, i2) == spec_poly_add(
                m,
                spec_poly_add(spec_poly_add(e2, spec_poly_sub(v_back, v)), spec_poly_sub(i1, i2)),
            )
        }),
{
    let v = spec_poly_add(spec_poly_add(i1, e2), m);
    let cv = spec_poly_sub(v_back, v);
    let w = spec_poly_sub(v_back, i2);
    let target = spec_poly_add(m, spec_poly_add(spec_poly_add(e2, cv), spec_poly_sub(i1, i2)));
    assert forall|c: int| 0 <= c < 256 implies #[trigger] w[c] == target[c] by {
        assert(canonical(v_back[c]));
        lemma_message_plus_noise_at(i1[c], i2[c], e2[c], m[c], v_back[c]);
    }
    assert(w =~= target);
}

/// One coefficient of the message and the noise.
proof fn lemma_message_plus_noise_at(i1: int, i2: int, e2: int, m: int, vb: int)
    ensures
        ({
            let v = ((i1 + e2) % 3329 + m) % 3329;
            let cv = (vb - v) % 3329;
            (vb - i2) % 3329 == (m + ((e2 + cv) % 3329 + (i1 - i2) % 3329) % 3329) % 3329
        }),
{
    let v = ((i1 + e2) % 3329 + m) % 3329;
    let cv = (vb - v) % 3329;
    let b = (e2 + cv) % 3329;
    let d = (i1 - i2) % 3329;
    let n = (b + d) % 3329;
    let t = (m + n) % 3329;
    assert((v - (i1 + e2 + m)) % 3329 == 0);
    assert((cv - (vb - i1 - e2 - m)) % 3329 == 0);
    assert((b - (vb - i1 - m)) % 3329 == 0);
    assert((n - (vb - m - i2)) % 3329 == 0);
    assert((t - (vb - i2)) % 3329 == 0);
}

/// The polynomials that the encryption under a generated key is made of,
/// transformed: the vector `t` of the key is the matrix times `s` plus `e`,
/// and the decompressed vector `u` is the transposed matrix times `r` plus
/// the transforms of the errors.
proof fn lemma_transformed_parts(p: ParamSet, seed: Seq<u8>, msg: Seq<u8>, coins: Seq<u8>)
    requires
        p.wf(),
        spec_indcpa_keypair(p, seed) is Some,
    ensures
        ({
            let k = p.k as int;
            let (pk, sk) = spec_indcpa_keypair(p, seed).unwrap();
            let rho = spec_rho(seed);
            let r_hat = spec_enc_r(p, coins);
            let prod = spec_mat_vec(rho, k, true, r_hat).unwrap();
            let u = spec_enc_u(p, coins, prod);
            let v = spec_enc_v(p, pk, msg, coins);
            let e1 = spec_noise_vec(coins, k, k, p.eta2 as int);
            let ct = spec_indcpa_enc(p, pk, msg, coins).unwrap();
            &&& spec_indcpa_enc(p, pk, msg, coins) is Some
            &&& spec_polyvec_from_bytes(sk, k) == spec_secret_vec(p, seed)
            &&& spec_ct_v(p, ct) == spec_poly_decompress(
                spec_poly_compress(v, p.dv as int),
                p.dv as int,
            )
            &&& is_poly(spec_ct_v(p, ct))
            &&& forall|i: int|
                0 <= i < k ==> #[trigger] spec_ntt_vec(spec_pk_vec(p, pk))[i] == spec_poly_add(
                    spec_dot(spec_matrix_row(rho, i, k, false), spec_secret_vec(p, seed), k),
                    spec_error_vec(p, seed)[i],
                )
            &&& forall|j: int|
                0 <= j < k ==> #[trigger] spec_ntt_vec(spec_ct_u(p, ct))[j] == spec_poly_add(
                    spec_dot(spec_matrix_row(rho, j, k, true), r_hat, k),
                    spec_ntt(
                        spec_poly_add(e1[j], spec_rounding_error(u[j], p.du as int)),
                    ),
                )
        }),
{
    let k = p.k as int;
    let du = p.du as int;
    let dv = p.dv as int;
    let (pk, sk) = spec_indcpa_keypair(p, seed).unwrap();
    let rho = spec_rho(seed);
    let r_hat = spec_enc_r(p, coins);
    lemma_key_parts(p, seed);
    let t_hat = spec_ntt_vec(spec_pk_vec(p, pk));
    let prod = spec_mat_vec(rho, k, true, r_hat).unwrap();
    let u = spec_enc_u(p, coins, prod);
    let v = spec_enc_v(p, pk, msg, coins);
    let ct = spec_indcpa_enc(p, pk, msg, coins).unwrap();
    assert(ct == spec_polyvec_compress(u, du) + spec_poly_compress(v, dv));
    lemma_ciphertext_parts(p, u, v);
    let e1 = spec_noise_vec(coins, k, k, p.eta2 as int);
    let u_hat = spec_ntt_vec(spec_ct_u(p, ct));
    assert(is_poly(v)) by {
        assert forall|c: int| 0 <= c < 256 implies canonical(#[trigger] v[c]) by {}
    }
    lemma_poly_compress_error(v, dv);
    assert forall|i: int| 0 <= i < k implies #[trigger] t_hat[i] == spec_poly_add(
        spec_dot(spec_matrix_row(rho, i, k, false), spec_secret_vec(p, seed), k),
        spec_error_vec(p, seed)[i],
    ) by {
        assert(t_hat[i] == spec_ntt(spec_pk_vec(p, pk)[i]));
    }
    assert forall|j: int| 0 <= j < k implies #[trigger] u_hat[j] == spec_poly_add(
        spec_dot(spec_matrix_row(rho, j, k, true), r_hat, k),
        spec_ntt(spec_poly_add(e1[j], spec_rounding_error(u[j], du))),
    ) by {
        let pt = spec_dot(spec_matrix_row(rho, j, k, true), r_hat, k);
        assert(prod[j] == pt);
        lemma_dot_is_poly(spec_matrix_row(rho, j, k, true), r_hat, k);
        lemma_transformed_u(pt, e1[j], du);
        assert(u[j] == spec_poly_add(spec_inv_ntt(pt), e1[j]));
    }
}

/// Decryption decodes the encoded message plus the noise: for a generated
/// key pair and the encryption of a message under its public key, the
/// polynomial `v - s * u` that decryption computes is the polynomial of the
/// message plus the noise of the decryption.
pub proof fn lemma_decryption_noise(p: ParamSet, seed: Seq<u8>, msg: Seq<u8>, coins: Seq<u8>)
    requires
        p.wf(),
        spec_indcpa_keypair(p, seed) is Some,
    ensures
        ({
            let (pk, sk) = spec_indcpa_keypair(p, seed).unwrap();
            &&& spec_indcpa_enc(p, pk, msg, coins) is Some
            &&& spec_dec_poly(p, sk, spec_indcpa_enc(p, pk, msg, coins).unwrap()) == spec_poly_add(
                spec_poly_from_msg(msg),
                spec_decryption_noise(p, seed, msg, coins),
            )
        }),
{
    let k = p.k as int;
    let du = p.du as int;
    let (pk, sk) = spec_indcpa_keypair(p, seed).unwrap();
    let rho = spec_rho(seed);
    let s_hat = spec_secret_vec(p, seed);
    let e_hat = spec_error_vec(p, seed);
    let r_hat = spec_enc_r(p, coins);
    let t_hat = spec_ntt_vec(spec_pk_vec(p, pk));
    let prod = spec_mat_vec(rho, k, true, r_hat).unwrap();
    let u = spec_enc_u(p, coins, prod);
    let ct = spec_indcpa_enc(p, pk, msg, coins).unwrap();
    let e1 = spec_noise_vec(coins, k, k, p.eta2 as int);
    let e2 = spec_noise(coins, 2 * k, p.eta2 as int);
    let f = Seq::new(
        k as nat,
        |i: int| spec_ntt(spec_poly_add(e1[i], spec_rounding_error(u[i], du))),
    );
    let u_hat = spec_ntt_vec(spec_ct_u(p, ct));
    let a = Seq::new(k as nat, |i: int| spec_matrix_row(rho, i, k, false));
    let at = Seq::new(k as nat, |i: int| spec_matrix_row(rho, i, k, true));
    lemma_transformed_parts(p, seed, msg, coins);
    assert forall|i: int| 0 <= i < k implies #[trigger] t_hat[i] == spec_poly_add(
        spec_dot(a[i], s_hat, k),
        e_hat[i],
    ) by {}
    assert forall|j: int| 0 <= j < k implies #[trigger] u_hat[j] == spec_poly_add(
        spec_dot(at[j], r_hat, k),
        f[j],
    ) by {}
    assert forall|i: int, j: int| 0 <= i < k && 0 <= j < k implies #[trigger] at[j][i]
        == a[i][j] by {}
    lemma_exchange_vectors(a, at, s_hat, r_hat, e_hat, f, t_hat, u_hat, k);
    let d1 = spec_dot(t_hat, r_hat, k);
    let d2 = spec_dot(s_hat, u_hat, k);
    lemma_dot_is_poly(t_hat, r_hat, k);
    lemma_dot_is_poly(s_hat, u_hat, k);
    lemma_transforms_add_sub(d1, d2);
    lemma_message_plus_noise(
        spec_inv_ntt(d1),
        spec_inv_ntt(d2),
        e2,
        spec_poly_from_msg(msg),
        spec_ct_v(p, ct),
    );
    // Back in the coefficient domain.
    let s = spec_noise_vec(spec_sigma(seed), 0, k, p.eta1 as int);
    let e = spec_noise_vec(spec_sigma(seed), k, k, p.eta1 as int);
    let r = spec_noise_vec(coins, 0, k, p.eta1 as int);
    let g = spec_ciphertext_errors(p, seed, coins);
    assert(f =~= spec_ntt_vec(g));
    let de = spec_dot(e_hat, r_hat, k);
    let df = spec_dot(s_hat, f, k);
    lemma_dot_is_poly(e_hat, r_hat, k);
    lemma_dot_is_poly(s_hat, f, k);
    lemma_transforms_add_sub(de, df);
    lemma_vec_product(e, r, k);
    lemma_vec_product(s, g, k);
}

/// Correctness of decryption: for a generated key pair, decrypting the
/// encryption of a message gives the message back, wherever every
/// coefficient of the noise of the decryption is less than a quarter of the
/// modulus away from zero.
pub proof fn lemma_decryption_correct(p: ParamSet, seed: Seq<u8>, msg: Seq<u8>, coins: Seq<u8>)
    requires
        p.wf(),
        msg.len() == 32,
        spec_indcpa_keypair(p, seed) is Some,
        forall|i: int|
            0 <= i < 256 ==> spec_distance(
                #[trigger] spec_decryption_noise(p, seed, msg, coins)[i],
                0,
            ) <= 831,
    ensures
        ({
            let (pk, sk) = spec_indcpa_keypair(p, seed).unwrap();
            &&& spec_indcpa_enc(p, pk, msg, coins) is Some
            &&& spec_indcpa_dec(p, sk, spec_indcpa_enc(p, pk, msg, coins).unwrap()) == msg
        }),
{
    lemma_decryption_noise(p, seed, msg, coins);
    let noise = spec_decryption_noise(p, seed, msg, coins);
    assert(is_poly(noise)) by {
        assert forall|c: int| 0 <= c < 256 implies canonical(#[trigger] noise[c]) by {}
    }
    lemma_decode_tolerates_noise(msg, noise);
}


/// Round trip under a noise bound: for a generated key pair and an
/// encapsulation under its public key, decapsulation with its secret key
/// gives the shared secret of the encapsulation, wherever every coefficient
/// of the noise of the decryption is less than a quarter of the modulus
/// away from zero.
pub proof fn lemma_round_trip_under_noise_bound(
    p: ParamSet,
    seed: Seq<u8>,
    z: Seq<u8>,
    m: Seq<u8>,
    pk: Seq<u8>,
    sk: Seq<u8>,
    ct: Seq<u8>,
    ss: Seq<u8>,
)
    requires
        p.wf(),
        z.len() == 32,
        m.len() == 32,
        spec_keygen(p, seed, z) == Some((pk, sk)),
        spec_encaps(p, pk, m) == Some((ct, ss)),
        forall|i: int|
            0 <= i < 256 ==> spec_distance(
                #[trigger] spec_decryption_noise(p, seed, m, spec_coins(m, spec_h(pk)))[i],
                0,
            ) <= 831,
    ensures
        spec_decaps(p, sk, ct) == ss,
{
    lemma_secret_key_parts(p, seed, z);
    lemma_decryption_correct(p, seed, m, spec_coins(m, spec_h(pk)));
    lemma_decaps_encaps(p, seed, z, m, pk, sk, ct, ss);
}

} // verus!
