//! The transform and its inverse are linear maps, and each undoes the
//! other.
use vstd::prelude::*;
use crate::field::{all_canonical, lemma_mod_shift, lemma_mul_mod};
use crate::ntt::{
    blocks,
    is_layer_len,
    lemma_block_index,
    lemma_index_block,
    lemma_layer_blocks,
    lemma_ntt_from_len,
    spec_inv_ntt,
    spec_inv_ntt_layer,
    spec_inv_ntt_upto,
    spec_ntt,
    spec_ntt_from,
    spec_ntt_layer,
    spec_scale,
};
use crate::poly::{spec_poly_add, spec_poly_sub};
use crate::zetas::{lemma_zeta_mirror, mirror, zeta};

verus! {

/// The combination `a * x + b * y` of two polynomials, coefficient by
/// coefficient modulo 3329.
pub open spec fn spec_combine(x: Seq<int>, y: Seq<int>, a: int, b: int) -> Seq<int> {
    Seq::new(256, |i: int| (a * x[i] + b * y[i]) % 3329)
}

/// Two sums of products that agree modulo 3329 once the inner residues are
/// replaced by what they are residues of.
proof fn lemma_combine_terms(a: int, b: int, u: int, v: int, s: int, t: int)
    requires
        (s - u) % 3329 == 0,
        (t - v) % 3329 == 0,
    ensures
        (a * s + b * t - (a * u + b * v)) % 3329 == 0,
{
    lemma_mul_mod(a, s);
    lemma_mul_mod(a, u);
    lemma_mul_mod(b, t);
    lemma_mul_mod(b, v);
    assert(s % 3329 == u % 3329);
    assert(t % 3329 == v % 3329);
}

/// A forward butterfly of a combination is the combination of the
/// butterflies.
proof fn lemma_combine_butterfly(
    a: int,
    b: int,
    z: int,
    xl: int,
    xh: int,
    yl: int,
    yh: int,
)
    ensures
        ((a * xl + b * yl) % 3329 + z * ((a * xh + b * yh) % 3329)) % 3329 == (a * ((xl + z * xh)
            % 3329) + b * ((yl + z * yh) % 3329)) % 3329,
        ((a * xl + b * yl) % 3329 - z * ((a * xh + b * yh) % 3329)) % 3329 == (a * ((xl - z * xh)
            % 3329) + b * ((yl - z * yh) % 3329)) % 3329,
{
    let ch = a * xh + b * yh;
    lemma_mul_mod(z, ch);
    let zc = z * ch;
    let zr = z * (ch % 3329);
    assert(zr % 3329 == zc % 3329);
    assert(zc == a * (z * xh) + b * (z * yh)) by (nonlinear_arith)
        requires
            zc == z * ch,
            ch == a * xh + b * yh,
    ;
    lemma_combine_terms(a, b, xl + z * xh, yl + z * yh, (xl + z * xh) % 3329, (yl + z * yh) % 3329);
    lemma_combine_terms(a, b, xl - z * xh, yl - z * yh, (xl - z * xh) % 3329, (yl - z * yh) % 3329);
    assert(a * (xl + z * xh) + b * (yl + z * yh) == a * xl + b * yl + (a * (z * xh) + b * (z * yh)))
        by (nonlinear_arith);
    assert(a * (xl - z * xh) + b * (yl - z * yh) == a * xl + b * yl - (a * (z * xh) + b * (z * yh)))
        by (nonlinear_arith);
}

/// An inverse butterfly of a combination is the combination of the
/// butterflies.
proof fn lemma_combine_inverse_butterfly(
    a: int,
    b: int,
    z: int,
    xl: int,
    xh: int,
    yl: int,
    yh: int,
)
    ensures
        ((a * xl + b * yl) % 3329 + (a * xh + b * yh) % 3329) % 3329 == (a * ((xl + xh) % 3329) + b
            * ((yl + yh) % 3329)) % 3329,
        (z * ((a * xh + b * yh) % 3329 - (a * xl + b * yl) % 3329)) % 3329 == (a * ((z * (xh - xl))
            % 3329) + b * ((z * (yh - yl)) % 3329)) % 3329,
{
    lemma_combine_terms(a, b, xl + xh, yl + yh, (xl + xh) % 3329, (yl + yh) % 3329);
    assert(a * (xl + xh) + b * (yl + yh) == (a * xl + b * yl) + (a * xh + b * yh))
        by (nonlinear_arith);
    let d = (a * xh + b * yh) % 3329 - (a * xl + b * yl) % 3329;
    let e = (a * xh + b * yh) - (a * xl + b * yl);
    assert(d % 3329 == e % 3329);
    lemma_mul_mod(z, d);
    lemma_mul_mod(z, e);
    lemma_combine_terms(
        a,
        b,
        z * (xh - xl),
        z * (yh - yl),
        (z * (xh - xl)) % 3329,
        (z * (yh - yl)) % 3329,
    );
    assert(z * e == a * (z * (xh - xl)) + b * (z * (yh - yl))) by (nonlinear_arith)
        requires
            e == (a * xh + b * yh) - (a * xl + b * yl),
    ;
}

/// A forward layer of a combination is the combination of the layers.
proof fn lemma_ntt_layer_combine(x: Seq<int>, y: Seq<int>, a: int, b: int, len: int)
    requires
        x.len() == 256,
        y.len() == 256,
        is_layer_len(len),
    ensures
        spec_ntt_layer(spec_combine(x, y, a, b), len) == spec_combine(
            spec_ntt_layer(x, len),
            spec_ntt_layer(y, len),
            a,
            b,
        ),
{
    let c = spec_combine(x, y, a, b);
    let l = spec_ntt_layer(c, len);
    let r = spec_combine(spec_ntt_layer(x, len), spec_ntt_layer(y, len), a, b);
    assert forall|j: int| 0 <= j < 256 implies #[trigger] l[j] == r[j] by {
        lemma_index_block(len, j);
        let blk = j / (2 * len);
        let off = j % (2 * len);
        let z = zeta(blocks(len) + blk);
        if off < len {
            lemma_block_index(len, blk, off + len);
            lemma_combine_butterfly(a, b, z, x[j], x[j + len], y[j], y[j + len]);
        } else {
            lemma_block_index(len, blk, off - len);
            lemma_combine_butterfly(a, b, z, x[j - len], x[j], y[j - len], y[j]);
        }
    }
    assert(l =~= r);
}

/// An inverse layer of a combination is the combination of the layers.
proof fn lemma_inv_ntt_layer_combine(x: Seq<int>, y: Seq<int>, a: int, b: int, len: int)
    requires
        x.len() == 256,
        y.len() == 256,
        is_layer_len(len),
    ensures
        spec_inv_ntt_layer(spec_combine(x, y, a, b), len) == spec_combine(
            spec_inv_ntt_layer(x, len),
            spec_inv_ntt_layer(y, len),
            a,
            b,
        ),
{
    let c = spec_combine(x, y, a, b);
    let l = spec_inv_ntt_layer(c, len);
    let r = spec_combine(spec_inv_ntt_layer(x, len), spec_inv_ntt_layer(y, len), a, b);
    assert forall|j: int| 0 <= j < 256 implies #[trigger] l[j] == r[j] by {
        lemma_index_block(len, j);
        let blk = j / (2 * len);
        let off = j % (2 * len);
        let z = zeta(2 * blocks(len) - 1 - blk);
        if off < len {
            lemma_block_index(len, blk, off + len);
            lemma_combine_inverse_butterfly(a, b, z, x[j], x[j + len], y[j], y[j + len]);
        } else {
            lemma_block_index(len, blk, off - len);
            lemma_combine_inverse_butterfly(a, b, z, x[j - len], x[j], y[j - len], y[j]);
        }
    }
    assert(l =~= r);
}

/// The forward layers from block length `len` down are linear.
proof fn lemma_ntt_from_combine(x: Seq<int>, y: Seq<int>, a: int, b: int, len: int)
    requires
        x.len() == 256,
        y.len() == 256,
        is_layer_len(len),
    ensures
        spec_ntt_from(spec_combine(x, y, a, b), len) == spec_combine(
            spec_ntt_from(x, len),
            spec_ntt_from(y, len),
            a,
            b,
        ),
    decreases len,
{
    lemma_ntt_layer_combine(x, y, a, b, len);
    let x1 = spec_ntt_layer(x, len);
    let y1 = spec_ntt_layer(y, len);
    if len == 2 {
        assert(spec_ntt_from(x, 2) == spec_ntt_from(x1, 1));
        assert(spec_ntt_from(y, 2) == spec_ntt_from(y1, 1));
        assert(spec_ntt_from(spec_combine(x, y, a, b), 2) == spec_ntt_from(
            spec_combine(x1, y1, a, b),
            1,
        ));
    } else {
        lemma_layer_blocks(len);
        lemma_ntt_from_combine(x1, y1, a, b, len / 2);
    }
}

/// The inverse layers up to block length `len` are linear.
proof fn lemma_inv_ntt_upto_combine(x: Seq<int>, y: Seq<int>, a: int, b: int, len: int)
    requires
        x.len() == 256,
        y.len() == 256,
        is_layer_len(len),
    ensures
        spec_inv_ntt_upto(spec_combine(x, y, a, b), len) == spec_combine(
            spec_inv_ntt_upto(x, len),
            spec_inv_ntt_upto(y, len),
            a,
            b,
        ),
    decreases len,
{
    if len == 2 {
        assert(spec_inv_ntt_upto(x, 1) == x);
        assert(spec_inv_ntt_upto(y, 1) == y);
        assert(spec_inv_ntt_upto(spec_combine(x, y, a, b), 1) == spec_combine(x, y, a, b));
        lemma_inv_ntt_layer_combine(x, y, a, b, 2);
    } else {
        lemma_layer_blocks(len);
        lemma_inv_ntt_upto_combine(x, y, a, b, len / 2);
        lemma_inv_ntt_layer_combine(
            spec_inv_ntt_upto(x, len / 2),
            spec_inv_ntt_upto(y, len / 2),
            a,
            b,
            len,
        );
    }
}

/// Scaling a combination is combining the scaled polynomials.
proof fn lemma_scale_combine(x: Seq<int>, y: Seq<int>, a: int, b: int, c: int)
    requires
        x.len() == 256,
        y.len() == 256,
    ensures
        spec_scale(spec_combine(x, y, a, b), c) == spec_combine(
            spec_scale(x, c),
            spec_scale(y, c),
            a,
            b,
        ),
{
    let l = spec_scale(spec_combine(x, y, a, b), c);
    let r = spec_combine(spec_scale(x, c), spec_scale(y, c), a, b);
    assert forall|j: int| 0 <= j < 256 implies #[trigger] l[j] == r[j] by {
        let s = a * x[j] + b * y[j];
        lemma_mul_mod(c, s);
        lemma_combine_terms(a, b, c * x[j], c * y[j], (c * x[j]) % 3329, (c * y[j]) % 3329);
        assert(c * s == a * (c * x[j]) + b * (c * y[j])) by (nonlinear_arith)
            requires
                s == a * x[j] + b * y[j],
        ;
    }
    assert(l =~= r);
}

/// The forward transform is linear.
pub proof fn lemma_ntt_combine(x: Seq<int>, y: Seq<int>, a: int, b: int)
    requires
        x.len() == 256,
        y.len() == 256,
    ensures
        spec_ntt(spec_combine(x, y, a, b)) == spec_combine(spec_ntt(x), spec_ntt(y), a, b),
{
    lemma_ntt_from_combine(x, y, a, b, 128);
}

/// The inverse transform is linear.
pub proof fn lemma_inv_ntt_combine(x: Seq<int>, y: Seq<int>, a: int, b: int)
    requires
        x.len() == 256,
        y.len() == 256,
    ensures
        spec_inv_ntt(spec_combine(x, y, a, b)) == spec_combine(
            spec_inv_ntt(x),
            spec_inv_ntt(y),
            a,
            b,
        ),
{
    lemma_inv_ntt_upto_combine(x, y, a, b, 128);
    lemma_inv_upto_len(x, 128);
    lemma_inv_upto_len(y, 128);
    lemma_scale_combine(spec_inv_ntt_upto(x, 128), spec_inv_ntt_upto(y, 128), a, b, 3303);
}

/// The inverse layers give 256 coefficients.
pub proof fn lemma_inv_upto_len(x: Seq<int>, len: int)
    requires
        x.len() == 256,
    ensures
        spec_inv_ntt_upto(x, len).len() == 256,
    decreases len,
{
    if len >= 2 {
        lemma_inv_upto_len(x, len / 2);
    }
}

/// Sums and differences are combinations.
pub proof fn lemma_add_sub_combine(x: Seq<int>, y: Seq<int>)
    ensures
        spec_poly_add(x, y) == spec_combine(x, y, 1, 1),
        spec_poly_sub(x, y) == spec_combine(x, y, 1, -1),
{
    assert(spec_poly_add(x, y) =~= spec_combine(x, y, 1, 1));
    assert(spec_poly_sub(x, y) =~= spec_combine(x, y, 1, -1));
}


/// Scaling is a combination.
proof fn lemma_scale_is_combine(w: Seq<int>, c: int)
    requires
        w.len() == 256,
    ensures
        spec_scale(w, c) == spec_combine(w, w, c, 0),
{
    assert forall|j: int| 0 <= j < 256 implies (c * w[j]) % 3329 == (c * w[j] + 0 * w[j])
        % 3329 by {
        assert(0 * w[j] == 0);
    }
    assert(spec_scale(w, c) =~= spec_combine(w, w, c, 0));
}

/// A forward butterfly after the inverse butterfly with the mirrored root
/// doubles both values.
proof fn lemma_butterfly_back(wl: int, wh: int, zf: int, zi: int)
    requires
        (zf * zi) % 3329 == 3328,
    ensures
        ((wl + wh) % 3329 + zf * ((zi * (wh - wl)) % 3329)) % 3329 == (2 * wl) % 3329,
        ((wl + wh) % 3329 - zf * ((zi * (wh - wl)) % 3329)) % 3329 == (2 * wh) % 3329,
{
    let d = wh - wl;
    let t = (zi * d) % 3329;
    lemma_mul_mod(zf, zi * d);
    assert(zf * (zi * d) == (zf * zi) * d) by (nonlinear_arith);
    lemma_mul_mod(zf * zi, d);
    lemma_mod_shift(3328 * d, -d, d);
    let zt = zf * t;
    assert(zt % 3329 == (-d) % 3329);
}

/// The forward layer after the inverse layer of the same block length
/// doubles every coefficient.
proof fn lemma_layer_back(w: Seq<int>, len: int)
    requires
        w.len() == 256,
        is_layer_len(len),
    ensures
        spec_ntt_layer(spec_inv_ntt_layer(w, len), len) == spec_scale(w, 2),
{
    let y = spec_inv_ntt_layer(w, len);
    let l = spec_ntt_layer(y, len);
    assert forall|j: int| 0 <= j < 256 implies #[trigger] l[j] == (2 * w[j]) % 3329 by {
        lemma_index_block(len, j);
        lemma_layer_blocks(len);
        let blk = j / (2 * len);
        let off = j % (2 * len);
        let zf = zeta(blocks(len) + blk);
        let zi = zeta(2 * blocks(len) - 1 - blk);
        assert(128int / 2 == 64 && 128int / 4 == 32 && 128int / 8 == 16 && 128int / 16 == 8
            && 128int / 32 == 4 && 128int / 64 == 2 && 128int / 128 == 1);
        assert(mirror(blocks(len) + blk) == 2 * blocks(len) - 1 - blk);
        lemma_zeta_mirror(blocks(len) + blk);
        if off < len {
            lemma_block_index(len, blk, off + len);
            assert(y[j] == (w[j] + w[j + len]) % 3329);
            assert(y[j + len] == (zi * (w[j + len] - w[j])) % 3329);
            lemma_butterfly_back(w[j], w[j + len], zf, zi);
        } else {
            lemma_block_index(len, blk, off - len);
            assert(y[j - len] == (w[j - len] + w[j]) % 3329);
            assert(y[j] == (zi * (w[j] - w[j - len])) % 3329);
            lemma_butterfly_back(w[j - len], w[j], zf, zi);
        }
    }
    assert(l =~= spec_scale(w, 2));
}

/// The forward layers from block length `len` down, after the inverse
/// layers up to block length `len`, multiply every coefficient by `len`.
proof fn lemma_ntt_from_inv_upto(x: Seq<int>, len: int)
    requires
        x.len() == 256,
        is_layer_len(len),
    ensures
        spec_ntt_from(spec_inv_ntt_upto(x, len), len) == spec_scale(x, len),
    decreases len,
{
    if len == 2 {
        assert(spec_inv_ntt_upto(x, 1) == x);
        lemma_layer_back(x, 2);
        let y = spec_inv_ntt_upto(x, 2);
        assert(spec_ntt_from(y, 2) == spec_ntt_from(spec_ntt_layer(y, 2), 1));
    } else {
        lemma_layer_blocks(len);
        let half = len / 2;
        let w = spec_inv_ntt_upto(x, half);
        lemma_inv_upto_len(x, half);
        lemma_layer_back(w, len);
        lemma_ntt_from_inv_upto(x, half);
        lemma_scale_is_combine(w, 2);
        lemma_ntt_from_combine(w, w, 2, 0, half);
        lemma_ntt_from_len(w, half);
        lemma_scale_is_combine(spec_ntt_from(w, half), 2);
        crate::ntt::lemma_scale_scale(x, half, 2);
        assert(half * 2 == len);
    }
}

/// The forward transform undoes the inverse transform, exactly: for every
/// polynomial `x` with coefficients in `[0, 3329)`, transforming `x` back
/// and then forward gives `x`.
pub proof fn lemma_ntt_inv_ntt(x: Seq<int>)
    requires
        x.len() == 256,
        all_canonical(x),
    ensures
        spec_ntt(spec_inv_ntt(x)) == x,
{
    let w = spec_inv_ntt_upto(x, 128);
    lemma_inv_upto_len(x, 128);
    lemma_scale_is_combine(w, 3303);
    lemma_ntt_combine(w, w, 3303, 0);
    lemma_ntt_from_inv_upto(x, 128);
    lemma_ntt_from_len(w, 128);
    lemma_scale_is_combine(spec_ntt(w), 3303);
    crate::ntt::lemma_scale_scale(x, 128, 3303);
    assert forall|i: int| 0 <= i < 256 implies ((128int * 3303) * x[i]) % 3329 == x[i] by {
        lemma_mod_shift((128int * 3303) * x[i], x[i], 127 * x[i]);
    }
    assert(spec_scale(x, 128int * 3303) =~= x);
}


/// The forward layers give coefficients in `[0, 3329)`.
proof fn lemma_ntt_from_canonical(x: Seq<int>, len: int)
    requires
        x.len() == 256,
        is_layer_len(len),
    ensures
        all_canonical(spec_ntt_from(x, len)),
    decreases len,
{
    let x1 = spec_ntt_layer(x, len);
    if len == 2 {
        assert(spec_ntt_from(x, 2) == spec_ntt_from(x1, 1));
        assert(spec_ntt_from(x1, 1) == x1);
        assert forall|i: int| 0 <= i < 256 implies 0 <= #[trigger] x1[i] < 3329 by {}
    } else {
        lemma_layer_blocks(len);
        lemma_ntt_from_canonical(x1, len / 2);
    }
}

/// The forward transform gives 256 coefficients in `[0, 3329)`.
pub proof fn lemma_ntt_is_poly(x: Seq<int>)
    requires
        x.len() == 256,
    ensures
        spec_ntt(x).len() == 256,
        all_canonical(spec_ntt(x)),
{
    lemma_ntt_from_len(x, 128);
    lemma_ntt_from_canonical(x, 128);
}

/// The inverse transform gives 256 coefficients in `[0, 3329)`.
pub proof fn lemma_inv_ntt_is_poly(x: Seq<int>)
    requires
        x.len() == 256,
    ensures
        spec_inv_ntt(x).len() == 256,
        all_canonical(spec_inv_ntt(x)),
{
    lemma_inv_upto_len(x, 128);
    let y = spec_inv_ntt(x);
    assert forall|i: int| 0 <= i < 256 implies 0 <= #[trigger] y[i] < 3329 by {}
}

/// The transforms of sums and differences are the sums and differences of
/// the transforms.
pub proof fn lemma_transforms_add_sub(x: Seq<int>, y: Seq<int>)
    requires
        x.len() == 256,
        y.len() == 256,
    ensures
        spec_ntt(spec_poly_add(x, y)) == spec_poly_add(spec_ntt(x), spec_ntt(y)),
        spec_ntt(spec_poly_sub(x, y)) == spec_poly_sub(spec_ntt(x), spec_ntt(y)),
        spec_inv_ntt(spec_poly_add(x, y)) == spec_poly_add(spec_inv_ntt(x), spec_inv_ntt(y)),
        spec_inv_ntt(spec_poly_sub(x, y)) == spec_poly_sub(spec_inv_ntt(x), spec_inv_ntt(y)),
{
    lemma_add_sub_combine(x, y);
    lemma_add_sub_combine(spec_ntt(x), spec_ntt(y));
    lemma_add_sub_combine(spec_inv_ntt(x), spec_inv_ntt(y));
    lemma_ntt_combine(x, y, 1, 1);
    lemma_ntt_combine(x, y, 1, -1);
    lemma_inv_ntt_combine(x, y, 1, 1);
    lemma_inv_ntt_combine(x, y, 1, -1);
}

} // verus!
