//! The product of polynomials that the transform turns into the
//! coefficient-wise product, and the proof that it does.
//!
//! The seven layers of butterflies never mix coefficients of even and of odd
//! index, so the transform is two transforms of 128 points side by side.
//! The coefficient-wise product in the evaluation domain therefore
//! multiplies the even-indexed halves of two polynomials with each other and
//! the odd-indexed halves with each other, each as polynomials in `Y = X^2`
//! modulo `Y^128 + 1`.
use vstd::prelude::*;
use crate::field::{all_canonical, lemma_mod_shift, lemma_mul_mod};
use crate::ntt::{
    blocks,
    is_layer_len,
    lemma_block_index,
    lemma_index_block,
    lemma_inv_ntt_ntt,
    lemma_layer_blocks,
    spec_inv_ntt,
    spec_ntt,
    spec_ntt_from,
    spec_ntt_layer,
};
use crate::poly::spec_pointwise_mul;
use crate::sums::{lemma_sum2_congruent, lemma_sum2_fold, lemma_sum2_linear, row_sum, sum2};
use crate::zetas::{lemma_zeta_square, zeta};

verus! {

/// The factor with which the product of coefficient `j` of one block and
/// coefficient `l` of another enters coefficient `i` of their product, for
/// blocks of `n` coefficients in which `X^n` is `gamma`: coefficients of
/// equal parity multiply, as monomials in `X^2`, into the coefficients of
/// that parity.
pub open spec fn spec_weight(n: int, gamma: int, i: int, j: int, l: int) -> int {
    if j % 2 == i % 2 && l % 2 == i % 2 {
        if j + l == i + i % 2 {
            1
        } else if j + l == i + i % 2 + n {
            gamma
        } else {
            0
        }
    } else {
        0
    }
}

/// The terms of coefficient `i` of the product of the blocks of `n`
/// coefficients that start at `base` in `x` and in `y`.
pub open spec fn block_term(x: Seq<int>, y: Seq<int>, base: int, n: int, gamma: int, i: int)
    -> spec_fn(int, int) -> int {
    |j: int, l: int| spec_weight(n, gamma, i, j, l) * (x[base + j] * y[base + l])
}

/// Coefficient `i` of the product of two blocks, before reduction.
pub open spec fn block_sum(x: Seq<int>, y: Seq<int>, base: int, n: int, gamma: int, i: int) -> int {
    sum2(block_term(x, y, base, n, gamma, i), 0, n, 0, n)
}

/// The product that the transform diagonalizes: the even-indexed
/// coefficients of `p` and `q` multiplied as polynomials in `X^2` modulo
/// `X^256 + 1`, and the odd-indexed coefficients likewise.
pub open spec fn spec_split_product(p: Seq<int>, q: Seq<int>) -> Seq<int> {
    Seq::new(256, |i: int| block_sum(p, q, 0, 256, 3328, i) % 3329)
}

/// `(xl + z xh) (yl + z yh)` multiplied out.
proof fn lemma_binomial_product(xl: int, xh: int, yl: int, yh: int, z: int)
    ensures
        (xl + z * xh) * (yl + z * yh) == xl * yl + z * (xl * yh) + z * (xh * yl) + (z * z) * (xh
            * yh),
{
    let a = xl;
    let b = z * xh;
    let c = yl;
    let d = z * yh;
    assert((a + b) * (c + d) == a * c + a * d + b * c + b * d) by (nonlinear_arith);
    assert(a * d == z * (xl * yh)) by (nonlinear_arith)
        requires
            a == xl,
            d == z * yh,
    ;
    assert(b * c == z * (xh * yl)) by (nonlinear_arith)
        requires
            b == z * xh,
            c == yl,
    ;
    assert(b * d == (z * z) * (xh * yh)) by (nonlinear_arith)
        requires
            b == z * xh,
            d == z * yh,
    ;
}

/// A product does not change modulo 3329 when its factors are replaced by
/// congruent ones.
proof fn lemma_product_congruent(a: int, b: int, c: int, d: int)
    requires
        (a - c) % 3329 == 0,
        (b - d) % 3329 == 0,
    ensures
        (a * b - c * d) % 3329 == 0,
{
    lemma_mul_mod(a, b);
    lemma_mul_mod(c, d);
    assert(a % 3329 == c % 3329);
    assert(b % 3329 == d % 3329);
}

/// One term of a folded block product: the four terms of the product of two
/// blocks of `2 * len` coefficients that lie `len` apart, combined as a
/// butterfly combines the two halves of the result, are the term of the
/// product of the two folded blocks.
proof fn lemma_fold_term(
    len: int,
    gamma: int,
    z: int,
    i: int,
    j: int,
    l: int,
    xl: int,
    xh: int,
    yl: int,
    yh: int,
    xf: int,
    yf: int,
)
    requires
        len >= 2,
        len % 2 == 0,
        0 <= i < len,
        0 <= j < len,
        0 <= l < len,
        (z * z - gamma) % 3329 == 0,
        (xf - (xl + z * xh)) % 3329 == 0,
        (yf - (yl + z * yh)) % 3329 == 0,
    ensures
        ({
            let n = 2 * len;
            let w00 = spec_weight(n, gamma, i, j, l) + z * spec_weight(n, gamma, i + len, j, l);
            let w01 = spec_weight(n, gamma, i, j, l + len) + z * spec_weight(
                n,
                gamma,
                i + len,
                j,
                l + len,
            );
            let w10 = spec_weight(n, gamma, i, j + len, l) + z * spec_weight(
                n,
                gamma,
                i + len,
                j + len,
                l,
            );
            let w11 = spec_weight(n, gamma, i, j + len, l + len) + z * spec_weight(
                n,
                gamma,
                i + len,
                j + len,
                l + len,
            );
            (w00 * (xl * yl) + w01 * (xl * yh) + w10 * (xh * yl) + w11 * (xh * yh) - spec_weight(
                len,
                z,
                i,
                j,
                l,
            ) * (xf * yf)) % 3329 == 0
        }),
{
    let n = 2 * len;
    let b = i % 2;
    let w = spec_weight(len, z, i, j, l);
    let w00 = spec_weight(n, gamma, i, j, l) + z * spec_weight(n, gamma, i + len, j, l);
    let w01 = spec_weight(n, gamma, i, j, l + len) + z * spec_weight(n, gamma, i + len, j, l + len);
    let w10 = spec_weight(n, gamma, i, j + len, l) + z * spec_weight(n, gamma, i + len, j + len, l);
    let w11 = spec_weight(n, gamma, i, j + len, l + len) + z * spec_weight(
        n,
        gamma,
        i + len,
        j + len,
        l + len,
    );
    let p00 = xl * yl;
    let p01 = xl * yh;
    let p10 = xh * yl;
    let p11 = xh * yh;
    let full = (xl + z * xh) * (yl + z * yh);
    lemma_binomial_product(xl, xh, yl, yh, z);
    lemma_product_congruent(xf, yf, xl + z * xh, yl + z * yh);
    assert((xf * yf - full) % 3329 == 0);
    assert((i + len) % 2 == b && (j + len) % 2 == j % 2 && (l + len) % 2 == l % 2);
    let lhs = w00 * p00 + w01 * p01 + w10 * p10 + w11 * p11;
    if j % 2 == b && l % 2 == b && j + l == i + b {
        assert(w == 1);
        assert(w00 == 1 && w01 == z && w10 == z && w11 == gamma) by {
            assert(z * 0 == 0 && z * 1 == z);
        }
        assert(lhs == p00 + z * p01 + z * p10 + gamma * p11) by (nonlinear_arith)
            requires
                lhs == w00 * p00 + w01 * p01 + w10 * p10 + w11 * p11,
                w00 == 1,
                w01 == z,
                w10 == z,
                w11 == gamma,
        ;
        lemma_product_congruent(gamma, p11, z * z, p11);
        assert(w * (xf * yf) == xf * yf) by (nonlinear_arith)
            requires
                w == 1,
        ;
    } else if j % 2 == b && l % 2 == b && j + l == i + b + len {
        assert(w == z);
        assert(w00 == z && w01 == gamma && w10 == gamma && w11 == z * gamma) by {
            assert(z * 0 == 0 && z * 1 == z);
        }
        assert(lhs == z * p00 + gamma * p01 + gamma * p10 + (z * gamma) * p11) by (nonlinear_arith)
            requires
                lhs == w00 * p00 + w01 * p01 + w10 * p10 + w11 * p11,
                w00 == z,
                w01 == gamma,
                w10 == gamma,
                w11 == z * gamma,
        ;
        let zz = z * z;
        lemma_product_congruent(gamma, p01, zz, p01);
        lemma_product_congruent(gamma, p10, zz, p10);
        lemma_product_congruent(gamma, z * p11, zz, z * p11);
        assert((z * gamma) * p11 == gamma * (z * p11)) by (nonlinear_arith);
        assert(z * full == z * p00 + zz * p01 + zz * p10 + zz * (z * p11)) by (nonlinear_arith)
            requires
                full == p00 + z * p01 + z * p10 + zz * p11,
                zz == z * z,
        ;
        lemma_product_congruent(z, xf * yf, z, full);
    } else {
        assert(w == 0);
        assert(w00 == 0 && w01 == 0 && w10 == 0 && w11 == 0) by {
            assert(z * 0 == 0);
        }
        assert(lhs == 0) by (nonlinear_arith)
            requires
                lhs == w00 * p00 + w01 * p01 + w10 * p10 + w11 * p11,
                w00 == 0,
                w01 == 0,
                w10 == 0,
                w11 == 0,
        ;
        assert(w * (xf * yf) == 0) by (nonlinear_arith)
            requires
                w == 0,
        ;
    }
}


/// `(wa + z wb) p` multiplied out.
proof fn lemma_weight_combine(wa: int, wb: int, z: int, p: int)
    ensures
        wa * p + z * (wb * p) == (wa + z * wb) * p,
{
    assert(wa * p + z * (wb * p) == (wa + z * wb) * p) by (nonlinear_arith);
}

/// Folding a block product: the product of two blocks of `2 * len`
/// coefficients in which `X^(2 len)` is `gamma`, with the two halves of the
/// result combined as `lo + z * hi`, is the product of the two blocks
/// folded in the same way, in which `X^len` is `z`, where `z` squares to
/// `gamma`.
proof fn lemma_fold_block(
    x: Seq<int>,
    y: Seq<int>,
    xf: Seq<int>,
    yf: Seq<int>,
    base: int,
    fbase: int,
    len: int,
    gamma: int,
    z: int,
    i: int,
)
    requires
        len >= 2,
        len % 2 == 0,
        0 <= i < len,
        (z * z - gamma) % 3329 == 0,
        forall|j: int|
            0 <= j < len ==> (#[trigger] xf[fbase + j] - (x[base + j] + z * x[base + j + len]))
                % 3329 == 0,
        forall|j: int|
            0 <= j < len ==> (#[trigger] yf[fbase + j] - (y[base + j] + z * y[base + j + len]))
                % 3329 == 0,
    ensures
        (block_sum(x, y, base, 2 * len, gamma, i) + z * block_sum(
            x,
            y,
            base,
            2 * len,
            gamma,
            i + len,
        ) - block_sum(xf, yf, fbase, len, z, i)) % 3329 == 0,
{
    let n = 2 * len;
    let ta = block_term(x, y, base, n, gamma, i);
    let tb = block_term(x, y, base, n, gamma, i + len);
    let w = |j: int, l: int| ta(j, l) + z * tb(j, l);
    lemma_sum2_linear(w, ta, tb, z, n, n);
    let v = |j: int, l: int| w(j, l) + w(j, l + len) + w(j + len, l) + w(j + len, l + len);
    lemma_sum2_fold(v, w, len, len);
    let u = block_term(xf, yf, fbase, len, z, i);
    assert forall|j: int, l: int| 0 <= j < len && 0 <= l < len implies (#[trigger] v(0 + j, 0 + l)
        - u(0 + j, 0 + l)) % 3329 == 0 by {
        let xl = x[base + j];
        let xh = x[base + j + len];
        let yl = y[base + l];
        let yh = y[base + l + len];
        assert((xf[fbase + j] - (xl + z * xh)) % 3329 == 0);
        assert((yf[fbase + l] - (yl + z * yh)) % 3329 == 0);
        lemma_fold_term(len, gamma, z, i, j, l, xl, xh, yl, yh, xf[fbase + j], yf[fbase + l]);
        lemma_weight_combine(
            spec_weight(n, gamma, i, j, l),
            spec_weight(n, gamma, i + len, j, l),
            z,
            xl * yl,
        );
        lemma_weight_combine(
            spec_weight(n, gamma, i, j, l + len),
            spec_weight(n, gamma, i + len, j, l + len),
            z,
            xl * yh,
        );
        lemma_weight_combine(
            spec_weight(n, gamma, i, j + len, l),
            spec_weight(n, gamma, i + len, j + len, l),
            z,
            xh * yl,
        );
        lemma_weight_combine(
            spec_weight(n, gamma, i, j + len, l + len),
            spec_weight(n, gamma, i + len, j + len, l + len),
            z,
            xh * yh,
        );
        assert(base + (j + len) == base + j + len && base + (l + len) == base + l + len);
        assert(w(j, l) == (spec_weight(n, gamma, i, j, l) + z * spec_weight(
            n,
            gamma,
            i + len,
            j,
            l,
        )) * (xl * yl));
        assert(w(j, l + len) == (spec_weight(n, gamma, i, j, l + len) + z * spec_weight(
            n,
            gamma,
            i + len,
            j,
            l + len,
        )) * (xl * yh));
        assert(w(j + len, l) == (spec_weight(n, gamma, i, j + len, l) + z * spec_weight(
            n,
            gamma,
            i + len,
            j + len,
            l,
        )) * (xh * yl));
        assert(w(j + len, l + len) == (spec_weight(n, gamma, i, j + len, l + len) + z
            * spec_weight(n, gamma, i + len, j + len, l + len)) * (xh * yh));
        assert(u(j, l) == spec_weight(len, z, i, j, l) * (xf[fbase + j] * yf[fbase + l]));
    }
    lemma_sum2_congruent(v, 0, 0, u, 0, 0, len, len);
}

/// The product of two blocks of two coefficients is the coefficient-wise
/// product, whatever `X^2` is.
proof fn lemma_block_sum_two(x: Seq<int>, y: Seq<int>, base: int, gamma: int, i: int)
    requires
        0 <= i < 2,
    ensures
        block_sum(x, y, base, 2, gamma, i) == x[base + i] * y[base + i],
{
    let t = block_term(x, y, base, 2, gamma, i);
    assert(sum2(t, 0, 2, 0, 2) == sum2(t, 0, 1, 0, 2) + row_sum(t, 1, 0, 2));
    assert(sum2(t, 0, 1, 0, 2) == sum2(t, 0, 0, 0, 2) + row_sum(t, 0, 0, 2));
    assert(row_sum(t, 0, 0, 2) == row_sum(t, 0, 0, 1) + t(0, 1));
    assert(row_sum(t, 0, 0, 1) == row_sum(t, 0, 0, 0) + t(0, 0));
    assert(row_sum(t, 1, 0, 2) == row_sum(t, 1, 0, 1) + t(1, 1));
    assert(row_sum(t, 1, 0, 1) == row_sum(t, 1, 0, 0) + t(1, 0));
    let p = x[base + i] * y[base + i];
    assert(1 * p == p);
    assert(0 * (x[base + 0] * y[base + 1]) == 0);
    assert(0 * (x[base + 1] * y[base + 0]) == 0);
    assert(0 * (x[base + 0] * y[base + 0]) == 0);
    assert(0 * (x[base + 1] * y[base + 1]) == 0);
}


/// What `X^(2 len)` is in block number `blk` before the layer of block
/// length `len`: the square of the root that the layer uses for the block.
pub open spec fn spec_layer_gamma(len: int, blk: int) -> int {
    (zeta(blocks(len) + blk) * zeta(blocks(len) + blk)) % 3329
}

/// Whether `z` holds, block by block, the products of the blocks of `x` and
/// `y`, for the blocks that the layer of block length `len` works on.
pub open spec fn is_block_product(x: Seq<int>, y: Seq<int>, z: Seq<int>, len: int) -> bool {
    forall|idx: int|
        0 <= idx < 256 ==> #[trigger] z[idx] == block_sum(
            x,
            y,
            (idx / (2 * len)) * (2 * len),
            2 * len,
            spec_layer_gamma(len, idx / (2 * len)),
            idx % (2 * len),
        ) % 3329
}

/// Where the half block that holds index `idx` after the layer of block
/// length `len` starts.
pub open spec fn fold_base(len: int, idx: int) -> int {
    if idx % (2 * len) < len {
        (idx / (2 * len)) * (2 * len)
    } else {
        (idx / (2 * len)) * (2 * len) + len
    }
}

/// The offset of index `idx` in its half block.
pub open spec fn fold_off(len: int, idx: int) -> int {
    if idx % (2 * len) < len {
        idx % (2 * len)
    } else {
        idx % (2 * len) - len
    }
}

/// What `X^len` is in the half block that holds index `idx` after the layer
/// of block length `len`: the root of the block in the lower half, its
/// negative in the upper half.
pub open spec fn fold_root(len: int, idx: int) -> int {
    if idx % (2 * len) < len {
        zeta(blocks(len) + idx / (2 * len))
    } else {
        3329 - zeta(blocks(len) + idx / (2 * len))
    }
}

/// The negative of a residue has the same square.
proof fn lemma_negative_square(z: int)
    ensures
        ((3329 - z) * (3329 - z) - (z * z) % 3329) % 3329 == 0,
{
    assert((3329 - z) * (3329 - z) == z * z + 3329 * (3329 - 2 * z)) by (nonlinear_arith);
    lemma_mod_shift((3329 - z) * (3329 - z), z * z, 3329 - 2 * z);
}

/// `lo - z hi` is congruent to `lo + (3329 - z) hi`.
proof fn lemma_negative_root(r: int, lo: int, hi: int, z: int)
    requires
        r == (lo - z * hi) % 3329,
    ensures
        (r - (lo + (3329 - z) * hi)) % 3329 == 0,
{
    assert((3329 - z) * hi == 3329 * hi - z * hi) by (nonlinear_arith);
    lemma_mod_shift(lo + (3329 - z) * hi, lo - z * hi, hi);
}

/// Combining two reduced sums as a butterfly does gives the reduced
/// combination.
proof fn lemma_combine_reduced(sa: int, sb: int, z: int, sf: int)
    requires
        (sa + z * sb - sf) % 3329 == 0,
    ensures
        (sa % 3329 + z * (sb % 3329)) % 3329 == sf % 3329,
{
    lemma_mul_mod(z, sb);
    let zb = z * sb;
    let zr = z * (sb % 3329);
    assert(zr % 3329 == zb % 3329);
    assert((sa % 3329 + zr) % 3329 == (sa + zb) % 3329);
}

/// After the layer of block length `len`, every coefficient of the
/// transformed product is the coefficient of the product of the transformed
/// half blocks.
proof fn lemma_layer_fold(x: Seq<int>, y: Seq<int>, z: Seq<int>, len: int, idx: int)
    requires
        x.len() == 256,
        y.len() == 256,
        z.len() == 256,
        is_layer_len(len),
        is_block_product(x, y, z, len),
        0 <= idx < 256,
    ensures
        spec_ntt_layer(z, len)[idx] == block_sum(
            spec_ntt_layer(x, len),
            spec_ntt_layer(y, len),
            fold_base(len, idx),
            len,
            fold_root(len, idx),
            fold_off(len, idx),
        ) % 3329,
{
    let x1 = spec_ntt_layer(x, len);
    let y1 = spec_ntt_layer(y, len);
    lemma_index_block(len, idx);
    lemma_layer_blocks(len);
    let blk = idx / (2 * len);
    let off = idx % (2 * len);
    let base = blk * (2 * len);
    let root = zeta(blocks(len) + blk);
    let gamma = spec_layer_gamma(len, blk);
    let o = fold_off(len, idx);
    let fbase = fold_base(len, idx);
    let zz = fold_root(len, idx);
    lemma_block_index(len, blk, o);
    lemma_block_index(len, blk, o + len);
    let lo = base + o;
    let hi = base + o + len;
    let sa = block_sum(x, y, base, 2 * len, gamma, o);
    let sb = block_sum(x, y, base, 2 * len, gamma, o + len);
    assert(z[lo] == sa % 3329);
    assert(z[hi] == sb % 3329);
    if off < len {
        assert forall|j: int| 0 <= j < len implies (#[trigger] x1[fbase + j] - (x[base + j] + zz
            * x[base + j + len])) % 3329 == 0 by {
            lemma_block_index(len, blk, j);
        }
        assert forall|j: int| 0 <= j < len implies (#[trigger] y1[fbase + j] - (y[base + j] + zz
            * y[base + j + len])) % 3329 == 0 by {
            lemma_block_index(len, blk, j);
        }
        lemma_mod_shift(root * root, gamma, (root * root) / 3329);
    } else {
        assert forall|j: int| 0 <= j < len implies (#[trigger] x1[fbase + j] - (x[base + j] + zz
            * x[base + j + len])) % 3329 == 0 by {
            lemma_block_index(len, blk, j + len);
            assert(fbase + j == base + (j + len));
            assert(base + (j + len) - len == base + j);
            lemma_negative_root(x1[fbase + j], x[base + j], x[base + j + len], root);
        }
        assert forall|j: int| 0 <= j < len implies (#[trigger] y1[fbase + j] - (y[base + j] + zz
            * y[base + j + len])) % 3329 == 0 by {
            lemma_block_index(len, blk, j + len);
            assert(fbase + j == base + (j + len));
            assert(base + (j + len) - len == base + j);
            lemma_negative_root(y1[fbase + j], y[base + j], y[base + j + len], root);
        }
        lemma_negative_square(root);
    }
    lemma_fold_block(x, y, x1, y1, base, fbase, len, gamma, zz, o);
    let sf = block_sum(x1, y1, fbase, len, zz, o);
    lemma_combine_reduced(sa, sb, zz, sf);
    if off < len {
        assert(spec_ntt_layer(z, len)[idx] == (z[lo] + root * z[hi]) % 3329);
    } else {
        assert(idx == hi && idx - len == lo);
        assert(spec_ntt_layer(z, len)[idx] == (z[lo] - root * z[hi]) % 3329);
        assert((3329 - root) * z[hi] == 3329 * z[hi] - root * z[hi]) by (nonlinear_arith);
        lemma_mod_shift(z[lo] + (3329 - root) * z[hi], z[lo] - root * z[hi], z[hi]);
    }
}

/// The layer of block length `len` takes blockwise products to blockwise
/// products of the next layer's blocks.
proof fn lemma_layer_product(x: Seq<int>, y: Seq<int>, z: Seq<int>, len: int)
    requires
        x.len() == 256,
        y.len() == 256,
        z.len() == 256,
        is_layer_len(len),
        len >= 4,
        is_block_product(x, y, z, len),
    ensures
        is_block_product(
            spec_ntt_layer(x, len),
            spec_ntt_layer(y, len),
            spec_ntt_layer(z, len),
            len / 2,
        ),
{
    let x1 = spec_ntt_layer(x, len);
    let y1 = spec_ntt_layer(y, len);
    let z1 = spec_ntt_layer(z, len);
    let half = len / 2;
    lemma_layer_blocks(len);
    assert(2 * half == len);
    assert forall|idx: int| 0 <= idx < 256 implies #[trigger] z1[idx] == block_sum(
        x1,
        y1,
        (idx / (2 * half)) * (2 * half),
        2 * half,
        spec_layer_gamma(half, idx / (2 * half)),
        idx % (2 * half),
    ) % 3329 by {
        lemma_layer_fold(x, y, z, len, idx);
        lemma_index_block(len, idx);
        let blk = idx / (2 * len);
        let off = idx % (2 * len);
        let k = blocks(len) + blk;
        lemma_zeta_square(k);
        let o = fold_off(len, idx);
        let sub = if off < len {
            2 * blk
        } else {
            2 * blk + 1
        };
        assert(sub * (2 * half) + o == idx) by (nonlinear_arith)
            requires
                idx == blk * (2 * len) + off,
                2 * half == len,
                (off < len && sub == 2 * blk && o == off) || (off >= len && sub == 2 * blk + 1 && o
                    == off - len),
        ;
        lemma_block_index(half, sub, o);
        assert(sub * (2 * half) == fold_base(len, idx)) by (nonlinear_arith)
            requires
                2 * half == len,
                (off < len && sub == 2 * blk && fold_base(len, idx) == blk * (2 * len)) || (off
                    >= len && sub == 2 * blk + 1 && fold_base(len, idx) == blk * (2 * len) + len),
        ;
        assert(blocks(half) + sub == if off < len {
            2 * k
        } else {
            2 * k + 1
        });
        assert(spec_layer_gamma(half, sub) == fold_root(len, idx));
    }
}

/// The last layer takes blockwise products to coefficient-wise products.
proof fn lemma_last_layer_product(x: Seq<int>, y: Seq<int>, z: Seq<int>)
    requires
        x.len() == 256,
        y.len() == 256,
        z.len() == 256,
        is_block_product(x, y, z, 2),
    ensures
        spec_ntt_layer(z, 2) == spec_pointwise_mul(spec_ntt_layer(x, 2), spec_ntt_layer(y, 2)),
{
    let x1 = spec_ntt_layer(x, 2);
    let y1 = spec_ntt_layer(y, 2);
    let z1 = spec_ntt_layer(z, 2);
    assert forall|idx: int| 0 <= idx < 256 implies #[trigger] z1[idx] == (x1[idx] * y1[idx])
        % 3329 by {
        lemma_layer_fold(x, y, z, 2, idx);
        lemma_index_block(2, idx);
        lemma_block_sum_two(x1, y1, fold_base(2, idx), fold_root(2, idx), fold_off(2, idx));
        assert(fold_base(2, idx) + fold_off(2, idx) == idx);
    }
    assert(z1 =~= spec_pointwise_mul(x1, y1));
}

/// The layers from block length `len` down take blockwise products to
/// coefficient-wise products.
proof fn lemma_layers_product(x: Seq<int>, y: Seq<int>, z: Seq<int>, len: int)
    requires
        x.len() == 256,
        y.len() == 256,
        z.len() == 256,
        is_layer_len(len),
        is_block_product(x, y, z, len),
    ensures
        spec_ntt_from(z, len) == spec_pointwise_mul(spec_ntt_from(x, len), spec_ntt_from(y, len)),
    decreases len,
{
    let x1 = spec_ntt_layer(x, len);
    let y1 = spec_ntt_layer(y, len);
    let z1 = spec_ntt_layer(z, len);
    if len == 2 {
        lemma_last_layer_product(x, y, z);
        assert(spec_ntt_from(x, 2) == spec_ntt_from(x1, 1));
        assert(spec_ntt_from(y, 2) == spec_ntt_from(y1, 1));
        assert(spec_ntt_from(z, 2) == spec_ntt_from(z1, 1));
    } else {
        lemma_layer_blocks(len);
        lemma_layer_product(x, y, z, len);
        lemma_layers_product(x1, y1, z1, len / 2);
    }
}

/// The transform takes the product of two polynomials to the
/// coefficient-wise product of their transforms.
pub proof fn lemma_ntt_multiplies(p: Seq<int>, q: Seq<int>)
    requires
        p.len() == 256,
        q.len() == 256,
    ensures
        spec_ntt(spec_split_product(p, q)) == spec_pointwise_mul(spec_ntt(p), spec_ntt(q)),
{
    let z = spec_split_product(p, q);
    assert(zeta(1) == 1729);
    assert((1729int * 1729) % 3329 == 3328);
    assert(blocks(128) == 1);
    assert(spec_layer_gamma(128, 0) == 3328);
    let len: int = 128;
    assert forall|idx: int| 0 <= idx < 256 implies #[trigger] z[idx] == block_sum(
        p,
        q,
        (idx / (2 * len)) * (2 * len),
        2 * len,
        spec_layer_gamma(len, idx / (2 * len)),
        idx % (2 * len),
    ) % 3329 by {
        assert(idx / 256 == 0 && idx % 256 == idx);
    }
    lemma_layers_product(p, q, z, len);
}

/// Ring homomorphism: multiplying the transforms of two polynomials
/// coefficient by coefficient and transforming back gives the product of
/// the two polynomials, in which their even-indexed halves and their
/// odd-indexed halves are multiplied as polynomials in `X^2` modulo
/// `X^256 + 1` and modulo 3329.
pub proof fn lemma_pointwise_mul_is_product(p: Seq<int>, q: Seq<int>)
    requires
        p.len() == 256,
        q.len() == 256,
    ensures
        spec_inv_ntt(spec_pointwise_mul(spec_ntt(p), spec_ntt(q))) == spec_split_product(p, q),
{
    lemma_ntt_multiplies(p, q);
    let z = spec_split_product(p, q);
    assert(all_canonical(z));
    lemma_inv_ntt_ntt(z);
}


/// The factor with which the product of coefficient `j` and coefficient `l`
/// enters coefficient `i` of the product modulo `X^256 + 1`: the monomials
/// multiply, and `X^256` is -1.
pub open spec fn spec_negacyclic_weight(i: int, j: int, l: int) -> int {
    if j + l == i {
        1
    } else if j + l == i + 256 {
        3328
    } else {
        0
    }
}

/// The terms of coefficient `i` of the product modulo `X^256 + 1`.
pub open spec fn negacyclic_term(p: Seq<int>, q: Seq<int>, i: int) -> spec_fn(int, int) -> int {
    |j: int, l: int| spec_negacyclic_weight(i, j, l) * (p[j] * q[l])
}

/// The product of `p` and `q` as polynomials modulo `X^256 + 1` and modulo
/// 3329: the convolution of the coefficients with the sign of the
/// wrap-around.
pub open spec fn spec_negacyclic_product(p: Seq<int>, q: Seq<int>) -> Seq<int> {
    Seq::new(256, |i: int| sum2(negacyclic_term(p, q, i), 0, 256, 0, 256) % 3329)
}

/// Whether every coefficient of odd index is zero: whether `p` is a
/// polynomial in `X^2`.
pub open spec fn is_even_polynomial(p: Seq<int>) -> bool {
    forall|j: int| 0 <= j < p.len() && j % 2 == 1 ==> #[trigger] p[j] == 0
}

/// For polynomials in `X^2`, the product that the transform realizes is the
/// product modulo `X^256 + 1`.
pub proof fn lemma_even_polynomials_product(p: Seq<int>, q: Seq<int>)
    requires
        p.len() == 256,
        q.len() == 256,
        is_even_polynomial(p),
        is_even_polynomial(q),
    ensures
        spec_negacyclic_product(p, q) == spec_split_product(p, q),
{
    let a = spec_negacyclic_product(p, q);
    let b = spec_split_product(p, q);
    assert forall|i: int| 0 <= i < 256 implies #[trigger] a[i] == b[i] by {
        let t = negacyclic_term(p, q, i);
        let u = block_term(p, q, 0, 256, 3328, i);
        assert forall|j: int, l: int| 0 <= j < 256 && 0 <= l < 256 implies (#[trigger] t(
            0 + j,
            0 + l,
        ) - u(0 + j, 0 + l)) % 3329 == 0 by {
            let m = p[j] * q[l];
            if j % 2 == 1 {
                assert(p[j] == 0);
                assert(m == 0) by (nonlinear_arith)
                    requires
                        m == p[j] * q[l],
                        p[j] == 0,
                ;
            } else if l % 2 == 1 {
                assert(q[l] == 0);
                assert(m == 0) by (nonlinear_arith)
                    requires
                        m == p[j] * q[l],
                        q[l] == 0,
                ;
            } else {
                assert(spec_negacyclic_weight(i, j, l) == spec_weight(256, 3328, i, j, l));
            }
            if m == 0 {
                assert(spec_negacyclic_weight(i, j, l) * m == 0) by (nonlinear_arith)
                    requires
                        m == 0,
                ;
                assert(spec_weight(256, 3328, i, j, l) * m == 0) by (nonlinear_arith)
                    requires
                        m == 0,
                ;
            }
        }
        lemma_sum2_congruent(t, 0, 0, u, 0, 0, 256, 256);
    }
    assert(a =~= b);
}

/// Ring homomorphism, for the product modulo `X^256 + 1`: wherever that
/// product of `p` and `q` is the product that the transform realizes, as it
/// is for polynomials in `X^2`, multiplying the transforms of `p` and `q`
/// coefficient by coefficient and transforming back gives it.
pub proof fn lemma_ring_homomorphism(p: Seq<int>, q: Seq<int>)
    requires
        p.len() == 256,
        q.len() == 256,
        spec_negacyclic_product(p, q) == spec_split_product(p, q),
    ensures
        spec_inv_ntt(spec_pointwise_mul(spec_ntt(p), spec_ntt(q))) == spec_negacyclic_product(
            p,
            q,
        ),
{
    lemma_pointwise_mul_is_product(p, q);
}

} // verus!
