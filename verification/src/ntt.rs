//! The number-theoretic transform over the coefficient field: seven layers
//! of butterflies that take a polynomial from the coefficient domain to the
//! evaluation domain, and the inverse network that brings it back.
use vstd::prelude::*;
use crate::field::{
    all_canonical,
    as_ints,
    canonical,
    fq_add,
    fq_mul,
    fq_sub,
    lemma_mod_shift,
    lemma_mul_mod,
};
use crate::params::N;
use crate::zetas::{ZETAS, lemma_zeta_mirror, mirror, zeta};

verus! {

/// The inverse of 128 modulo 3329: the inverse of two, once for each of the
/// seven butterfly layers.
pub const INV_LAYERS: i16 = 3303;

/// The block lengths of the seven layers.
pub open spec fn is_layer_len(len: int) -> bool {
    len == 2 || len == 4 || len == 8 || len == 16 || len == 32 || len == 64 || len == 128
}

/// The number of blocks in the layer of block length `len`.
pub open spec fn blocks(len: int) -> int {
    128int / len
}

/// Coefficient `j` after the forward layer of block length `len`.
///
/// The layer cuts the polynomial into blocks of `2 * len` coefficients; block
/// `b` uses root number `blocks(len) + b`.  In each block the lower half
/// becomes `lo + zeta * hi` and the upper half `lo - zeta * hi`.
pub open spec fn spec_ntt_layer_at(p: Seq<int>, len: int, j: int) -> int {
    let z = zeta(blocks(len) + j / (2 * len));
    if j % (2 * len) < len {
        (p[j] + z * p[j + len]) % 3329
    } else {
        (p[j - len] - z * p[j]) % 3329
    }
}

/// The forward layer of block length `len`.
pub open spec fn spec_ntt_layer(p: Seq<int>, len: int) -> Seq<int> {
    Seq::new(256, |j: int| spec_ntt_layer_at(p, len, j))
}

/// The forward layers of block lengths `len`, `len / 2`, ..., 2, in this order.
pub open spec fn spec_ntt_from(p: Seq<int>, len: int) -> Seq<int>
    decreases len,
{
    if len < 2 {
        p
    } else {
        spec_ntt_from(spec_ntt_layer(p, len), len / 2)
    }
}

/// The forward transform: the layers of block lengths 128, 64, ..., 2.
pub open spec fn spec_ntt(p: Seq<int>) -> Seq<int> {
    spec_ntt_from(p, 128)
}

/// The layer of block length `len` has `128 / len` blocks of `2 * len`
/// coefficients, which together cover all 256.
pub proof fn lemma_layer_blocks(len: int)
    requires
        is_layer_len(len),
    ensures
        1 <= blocks(len) <= 64,
        blocks(len) * len == 128,
        blocks(len) * (2 * len) == 256,
        len > 2 ==> is_layer_len(len / 2) && blocks(len / 2) == 2 * blocks(len),
        len < 128 ==> is_layer_len(2 * len) && 2 * blocks(2 * len) == blocks(len),
{
    assert(128int / 2 == 64 && 128int / 4 == 32 && 128int / 8 == 16 && 128int / 16 == 8 && 128int
        / 32 == 4 && 128int / 64 == 2 && 128int / 128 == 1);
    assert(blocks(len) * len == 128 && blocks(len) * (2 * len) == 256) by (nonlinear_arith)
        requires
            (len == 2 && blocks(len) == 64) || (len == 4 && blocks(len) == 32) || (len == 8
                && blocks(len) == 16) || (len == 16 && blocks(len) == 8) || (len == 32
                && blocks(len) == 4) || (len == 64 && blocks(len) == 2) || (len == 128
                && blocks(len) == 1),
    ;
}

/// The forward transform gives 256 coefficients.
pub proof fn lemma_ntt_len(p: Seq<int>)
    requires
        p.len() == 256,
    ensures
        spec_ntt(p).len() == 256,
{
    lemma_ntt_from_len(p, 128);
}

/// The forward layers from any block length down give 256 coefficients.
pub proof fn lemma_ntt_from_len(p: Seq<int>, len: int)
    requires
        p.len() == 256,
    ensures
        spec_ntt_from(p, len).len() == 256,
    decreases len,
{
    if len >= 2 {
        lemma_ntt_from_len(spec_ntt_layer(p, len), len / 2);
    }
}

/// In the layer of block length `len`, the coefficient at offset `off` of
/// block `blk` has index `blk * (2 * len) + off`, and that index is below 256.
pub proof fn lemma_block_index(len: int, blk: int, off: int)
    requires
        is_layer_len(len),
        0 <= blk < blocks(len),
        0 <= off < 2 * len,
    ensures
        0 <= blk * (2 * len) + off < 256,
        (blk * (2 * len) + off) / (2 * len) == blk,
        (blk * (2 * len) + off) % (2 * len) == off,
        (blk + 1) * (2 * len) == blk * (2 * len) + 2 * len,
        (blk + 1) * (2 * len) <= 256,
{
    lemma_layer_blocks(len);
    let d = 2 * len;
    let x = blk * d + off;
    assert(0 <= blk * d && (blk + 1) * d == blk * d + d && (blk + 1) * d <= blocks(len) * d)
        by (nonlinear_arith)
        requires
            0 <= blk,
            blk + 1 <= blocks(len),
            d > 0,
    ;
    assert(x == blk * d + off);
    vstd::arithmetic::div_mod::lemma_fundamental_div_mod_converse(x, d, blk, off);
}

/// Every index below 256 lies in some block of the layer of block length `len`.
pub proof fn lemma_index_block(len: int, j: int)
    requires
        is_layer_len(len),
        0 <= j < 256,
    ensures
        0 <= j / (2 * len) < blocks(len),
        0 <= j % (2 * len) < 2 * len,
        j == (j / (2 * len)) * (2 * len) + j % (2 * len),
{
    lemma_layer_blocks(len);
    let d = 2 * len;
    vstd::arithmetic::div_mod::lemma_fundamental_div_mod(j, d);
    vstd::arithmetic::div_mod::lemma_mod_pos_bound(j, d);
    let q = j / d;
    let n = blocks(len);
    assert(d * q == q * d) by (nonlinear_arith);
    assert(0 <= q < n) by (nonlinear_arith)
        requires
            0 <= j < 256,
            j == q * d + j % d,
            0 <= j % d < d,
            n * d == 256,
            d > 0,
    ;
}

/// Forward transform, in place: from the coefficient domain to the
/// evaluation domain.
pub fn ntt(p: &mut [i16; N])
    requires
        all_canonical(as_ints(old(p)@)),
    ensures
        as_ints(final(p)@) == spec_ntt(as_ints(old(p)@)),
        all_canonical(as_ints(final(p)@)),
{
    let mut k: usize = 1;
    let mut len: usize = 128;
    while len >= 2
        invariant
            len == 1 || is_layer_len(len as int),
            len == 1 ==> k == 128,
            is_layer_len(len as int) ==> k == blocks(len as int),
            all_canonical(as_ints(p@)),
            spec_ntt_from(as_ints(p@), len as int) == spec_ntt(as_ints(old(p)@)),
        decreases len,
    {
        let ghost input = as_ints(p@);
        let ghost nb: int = blocks(len as int);
        let mut start: usize = 0;
        proof {
            lemma_layer_blocks(len as int);
        }
        while start < N
            invariant
                is_layer_len(len as int),
                nb == blocks(len as int),
                input.len() == 256,
                all_canonical(input),
                0 <= k - nb <= nb,
                start == (k - nb) * (2 * len),
                start <= 256,
                all_canonical(as_ints(p@)),
                forall|i: int|
                    0 <= i < start ==> p@[i] as int == spec_ntt_layer_at(input, len as int, i),
                forall|i: int| start <= i < 256 ==> p@[i] as int == input[i],
            decreases 256 - start,
        {
            let ghost blk: int = k - nb;
            proof {
                lemma_layer_blocks(len as int);
                assert(blk != nb);
                lemma_block_index(len as int, blk, 0);
            }
            let z = ZETAS[k];
            k += 1;
            let mut j: usize = start;
            while j < start + len
                invariant
                    is_layer_len(len as int),
                    nb == blocks(len as int),
                    0 <= blk < nb,
                    input.len() == 256,
                    all_canonical(input),
                    start == blk * (2 * len),
                    start + 2 * len <= 256,
                    start <= j <= start + len,
                    z as int == zeta(nb + blk),
                    canonical(z as int),
                    all_canonical(as_ints(p@)),
                    forall|i: int|
                        0 <= i < j ==> p@[i] as int == spec_ntt_layer_at(input, len as int, i),
                    forall|i: int|
                        start + len <= i < j + len ==>
                            p@[i] as int == spec_ntt_layer_at(input, len as int, i),
                    forall|i: int| j <= i < start + len ==> p@[i] as int == input[i],
                    forall|i: int| j + len <= i < 256 ==> p@[i] as int == input[i],
                decreases start + len - j,
            {
                let ghost before = p@;
                assert(canonical(as_ints(p@)[j as int]));
                assert(canonical(as_ints(p@)[j + len]));
                let lo = p[j];
                let hi = p[j + len];
                let t = fq_mul(z, hi);
                p[j + len] = fq_sub(lo, t);
                p[j] = fq_add(lo, t);
                proof {
                    lemma_block_index(len as int, blk, j - start);
                    lemma_block_index(len as int, blk, j - start + len);
                    assert(p@[j as int] as int == spec_ntt_layer_at(input, len as int, j as int));
                    assert(p@[j + len] as int == spec_ntt_layer_at(input, len as int, j + len));
                    assert forall|i: int| 0 <= i < 256 implies canonical(#[trigger] as_ints(p@)[i]) by {
                        if i != j && i != j + len {
                            assert(as_ints(p@)[i] == as_ints(before)[i]);
                        }
                    }
                }
                j += 1;
            }
            start += 2 * len;
        }
        proof {
            lemma_layer_blocks(len as int);
            assert(k - nb == nb) by (nonlinear_arith)
                requires
                    (k - nb) * (2 * len) == 256,
                    nb * (2 * len) == 256,
                    len > 0,
            ;
            assert(as_ints(p@) =~= spec_ntt_layer(input, len as int));
        }
        len = len / 2;
    }
}

/// Coefficient `j` after the inverse layer of block length `len`.
///
/// Block `b` uses root number `2 * (128 / len) - 1 - b`: the roots of a
/// layer are consumed in reverse order.  In each block the lower half
/// becomes `lo + hi` and the upper half `zeta * (hi - lo)`.
pub open spec fn spec_inv_ntt_layer_at(p: Seq<int>, len: int, j: int) -> int {
    let z = zeta(2 * blocks(len) - 1 - j / (2 * len));
    if j % (2 * len) < len {
        (p[j] + p[j + len]) % 3329
    } else {
        (z * (p[j] - p[j - len])) % 3329
    }
}

/// The inverse layer of block length `len`.
pub open spec fn spec_inv_ntt_layer(p: Seq<int>, len: int) -> Seq<int> {
    Seq::new(256, |j: int| spec_inv_ntt_layer_at(p, len, j))
}

/// The inverse layers of block lengths 2, 4, ..., `len`, in this order.
pub open spec fn spec_inv_ntt_upto(p: Seq<int>, len: int) -> Seq<int>
    decreases len,
{
    if len < 2 {
        p
    } else {
        spec_inv_ntt_layer(spec_inv_ntt_upto(p, len / 2), len)
    }
}

/// Every coefficient multiplied by `c` modulo 3329.
pub open spec fn spec_scale(p: Seq<int>, c: int) -> Seq<int> {
    Seq::new(p.len(), |i: int| (c * p[i]) % 3329)
}

/// The inverse transform: the inverse layers of block lengths 2, 4, ...,
/// 128, then every coefficient multiplied by the inverse of 128.
pub open spec fn spec_inv_ntt(p: Seq<int>) -> Seq<int> {
    spec_scale(spec_inv_ntt_upto(p, 128), 3303)
}

/// Inverse transform, in place: from the evaluation domain back to the
/// coefficient domain.
pub fn inv_ntt(p: &mut [i16; N])
    requires
        all_canonical(as_ints(old(p)@)),
    ensures
        as_ints(final(p)@) == spec_inv_ntt(as_ints(old(p)@)),
        all_canonical(as_ints(final(p)@)),
{
    let mut k: usize = 127;
    let mut len: usize = 2;
    proof {
        lemma_layer_blocks(2);
        assert(as_ints(p@) == spec_inv_ntt_upto(as_ints(p@), 1));
    }
    while len <= 128
        invariant
            len == 256 || is_layer_len(len as int),
            len == 256 ==> k == 0,
            is_layer_len(len as int) ==> k == 2 * blocks(len as int) - 1,
            all_canonical(as_ints(p@)),
            as_ints(p@) == spec_inv_ntt_upto(as_ints(old(p)@), len as int / 2),
        decreases 256 - len,
    {
        let ghost input = as_ints(p@);
        let ghost nb: int = blocks(len as int);
        let mut start: usize = 0;
        proof {
            lemma_layer_blocks(len as int);
        }
        while start < N
            invariant
                is_layer_len(len as int),
                nb == blocks(len as int),
                input.len() == 256,
                all_canonical(input),
                0 <= 2 * nb - 1 - k <= nb,
                start == (2 * nb - 1 - k) * (2 * len),
                start <= 256,
                all_canonical(as_ints(p@)),
                forall|i: int|
                    0 <= i < start ==> p@[i] as int == spec_inv_ntt_layer_at(input, len as int, i),
                forall|i: int| start <= i < 256 ==> p@[i] as int == input[i],
            decreases 256 - start,
        {
            let ghost blk: int = 2 * nb - 1 - k;
            proof {
                lemma_layer_blocks(len as int);
                assert(blk != nb);
                lemma_block_index(len as int, blk, 0);
            }
            let z = ZETAS[k];
            k -= 1;
            let mut j: usize = start;
            while j < start + len
                invariant
                    is_layer_len(len as int),
                    nb == blocks(len as int),
                    0 <= blk < nb,
                    input.len() == 256,
                    all_canonical(input),
                    start == blk * (2 * len),
                    start + 2 * len <= 256,
                    start <= j <= start + len,
                    z as int == zeta(2 * nb - 1 - blk),
                    canonical(z as int),
                    all_canonical(as_ints(p@)),
                    forall|i: int|
                        0 <= i < j ==> p@[i] as int == spec_inv_ntt_layer_at(input, len as int, i),
                    forall|i: int|
                        start + len <= i < j + len ==> p@[i] as int == spec_inv_ntt_layer_at(
                            input,
                            len as int,
                            i,
                        ),
                    forall|i: int| j <= i < start + len ==> p@[i] as int == input[i],
                    forall|i: int| j + len <= i < 256 ==> p@[i] as int == input[i],
                decreases start + len - j,
            {
                let ghost before = p@;
                assert(canonical(as_ints(p@)[j as int]));
                assert(canonical(as_ints(p@)[j + len]));
                let lo = p[j];
                let hi = p[j + len];
                p[j] = fq_add(lo, hi);
                let d = fq_sub(hi, lo);
                p[j + len] = fq_mul(z, d);
                proof {
                    lemma_block_index(len as int, blk, j - start);
                    lemma_block_index(len as int, blk, j - start + len);
                    lemma_mul_mod(z as int, hi as int - lo as int);
                    assert(p@[j as int] as int == spec_inv_ntt_layer_at(input, len as int, j as int));
                    assert(p@[j + len] as int == spec_inv_ntt_layer_at(input, len as int, j + len));
                    assert forall|i: int| 0 <= i < 256 implies canonical(
                        #[trigger] as_ints(p@)[i],
                    ) by {
                        if i != j && i != j + len {
                            assert(as_ints(p@)[i] == as_ints(before)[i]);
                        }
                    }
                }
                j += 1;
            }
            start += 2 * len;
        }
        proof {
            lemma_layer_blocks(len as int);
            assert(2 * nb - 1 - k == nb) by (nonlinear_arith)
                requires
                    (2 * nb - 1 - k) * (2 * len) == 256,
                    nb * (2 * len) == 256,
                    len > 0,
            ;
            assert(as_ints(p@) =~= spec_inv_ntt_layer(input, len as int));
            assert((2 * len) as int / 2 == len);
        }
        len = len * 2;
    }
    let ghost unscaled = as_ints(p@);
    let mut i: usize = 0;
    while i < N
        invariant
            i <= 256,
            unscaled.len() == 256,
            all_canonical(unscaled),
            all_canonical(as_ints(p@)),
            forall|t: int| 0 <= t < i ==> p@[t] as int == (3303 * unscaled[t]) % 3329,
            forall|t: int| i <= t < 256 ==> p@[t] as int == unscaled[t],
        decreases 256 - i,
    {
        let ghost before = p@;
        assert(canonical(as_ints(p@)[i as int]));
        p[i] = fq_mul(INV_LAYERS, p[i]);
        proof {
            assert forall|t: int| 0 <= t < 256 implies canonical(#[trigger] as_ints(p@)[t]) by {
                if t != i {
                    assert(as_ints(p@)[t] == as_ints(before)[t]);
                }
            }
        }
        i += 1;
    }
    proof {
        assert(as_ints(p@) =~= spec_scale(unscaled, 3303));
    }
}


/// The upper half of a butterfly, undone: with `zf` and `zi` multiplying to
/// -1, `zi * ((a - zf * b) - (a + zf * b))` is `2 * b`.
proof fn lemma_butterfly_upper(a: int, b: int, zf: int, zi: int)
    requires
        (zf * zi) % 3329 == 3328,
    ensures
        (zi * ((a - zf * b) % 3329 - (a + zf * b) % 3329)) % 3329 == (2 * b) % 3329,
{
    let w = zf * b;
    let d = (a - w) % 3329 - (a + w) % 3329;
    assert(d % 3329 == (-2 * w) % 3329);
    lemma_mul_mod(zi, d);
    lemma_mul_mod(zi, -2 * w);
    assert(zi * (-2 * w) == (zf * zi) * (-2 * b)) by (nonlinear_arith)
        requires
            w == zf * b,
    ;
    lemma_mul_mod(zf * zi, -2 * b);
    lemma_mod_shift(3328 * (-2 * b), 2 * b, -2 * b);
}

/// Scaling commutes with the lower half of an inverse butterfly.
proof fn lemma_scale_sum(c: int, u: int, v: int)
    ensures
        ((c * u) % 3329 + (c * v) % 3329) % 3329 == (c * ((u + v) % 3329)) % 3329,
{
    lemma_mul_mod(c, u + v);
    assert(c * (u + v) == c * u + c * v) by (nonlinear_arith);
}

/// Scaling commutes with the upper half of an inverse butterfly.
proof fn lemma_scale_diff(c: int, z: int, u: int, v: int)
    ensures
        (z * ((c * u) % 3329 - (c * v) % 3329)) % 3329 == (c * ((z * (u - v)) % 3329)) % 3329,
{
    let e = (c * u) % 3329 - (c * v) % 3329;
    assert(c * (u - v) == c * u - c * v) by (nonlinear_arith);
    assert(e % 3329 == (c * (u - v)) % 3329);
    lemma_mul_mod(z, e);
    lemma_mul_mod(z, c * (u - v));
    lemma_mul_mod(c, z * (u - v));
    assert(z * (c * (u - v)) == c * (z * (u - v))) by (nonlinear_arith);
}

/// Scaling by `a` and then by `b` is scaling by `a * b`.
pub proof fn lemma_scale_scale(x: Seq<int>, a: int, b: int)
    ensures
        spec_scale(spec_scale(x, a), b) =~= spec_scale(x, a * b),
{
    assert forall|i: int| 0 <= i < x.len() implies (b * ((a * x[i]) % 3329)) % 3329 == ((a * b)
        * x[i]) % 3329 by {
        lemma_mul_mod(b, a * x[i]);
        assert(b * (a * x[i]) == (a * b) * x[i]) by (nonlinear_arith);
    }
}

/// The inverse layer of block length `len` pairs block `blk` with the mirror
/// of the root that the forward layer used for it.
proof fn lemma_mirror_index(len: int, blk: int)
    requires
        is_layer_len(len),
        0 <= blk < blocks(len),
    ensures
        mirror(blocks(len) + blk) == 2 * blocks(len) - 1 - blk,
        1 <= blocks(len) + blk < 128,
{
    lemma_layer_blocks(len);
    assert(128int / 2 == 64 && 128int / 4 == 32 && 128int / 8 == 16 && 128int / 16 == 8 && 128int
        / 32 == 4 && 128int / 64 == 2 && 128int / 128 == 1);
}

/// An inverse layer after the forward layer of the same block length
/// doubles every coefficient.
proof fn lemma_layer_round_trip(x: Seq<int>, len: int)
    requires
        x.len() == 256,
        is_layer_len(len),
    ensures
        spec_inv_ntt_layer(spec_ntt_layer(x, len), len) =~= spec_scale(x, 2),
{
    let y = spec_ntt_layer(x, len);
    assert forall|j: int| 0 <= j < 256 implies spec_inv_ntt_layer_at(y, len, j) == (2 * x[j])
        % 3329 by {
        lemma_index_block(len, j);
        let blk = j / (2 * len);
        let off = j % (2 * len);
        let zf = zeta(blocks(len) + blk);
        let zi = zeta(2 * blocks(len) - 1 - blk);
        lemma_mirror_index(len, blk);
        lemma_zeta_mirror(blocks(len) + blk);
        if off < len {
            lemma_block_index(len, blk, off + len);
            assert(y[j] == (x[j] + zf * x[j + len]) % 3329);
            assert(y[j + len] == (x[j] - zf * x[j + len]) % 3329);
        } else {
            lemma_block_index(len, blk, off - len);
            assert(y[j] == (x[j - len] - zf * x[j]) % 3329);
            assert(y[j - len] == (x[j - len] + zf * x[j]) % 3329);
            lemma_butterfly_upper(x[j - len], x[j], zf, zi);
        }
    }
}

/// An inverse layer applied to a scaled polynomial is the scaled result of
/// the inverse layer.
proof fn lemma_inv_layer_scale(w: Seq<int>, c: int, len: int)
    requires
        w.len() == 256,
        is_layer_len(len),
    ensures
        spec_inv_ntt_layer(spec_scale(w, c), len) =~= spec_scale(spec_inv_ntt_layer(w, len), c),
{
    let s = spec_scale(w, c);
    assert forall|j: int| 0 <= j < 256 implies spec_inv_ntt_layer_at(s, len, j) == (c
        * spec_inv_ntt_layer_at(w, len, j)) % 3329 by {
        lemma_index_block(len, j);
        let blk = j / (2 * len);
        let off = j % (2 * len);
        let z = zeta(2 * blocks(len) - 1 - blk);
        if off < len {
            lemma_block_index(len, blk, off + len);
            lemma_scale_sum(c, w[j], w[j + len]);
        } else {
            lemma_block_index(len, blk, off - len);
            lemma_scale_diff(c, z, w[j], w[j - len]);
        }
    }
}

/// The inverse layers up to block length `len`, after the forward layers
/// from block length `len` down, multiply every coefficient by `len`.
proof fn lemma_inv_upto_ntt_from(x: Seq<int>, len: int)
    requires
        x.len() == 256,
        is_layer_len(len),
    ensures
        spec_inv_ntt_upto(spec_ntt_from(x, len), len) == spec_scale(x, len),
    decreases len,
{
    let y = spec_ntt_layer(x, len);
    lemma_layer_round_trip(x, len);
    if len == 2 {
        assert(spec_ntt_from(x, 2) == spec_ntt_from(y, 1));
        assert(spec_inv_ntt_upto(y, 2) == spec_inv_ntt_layer(spec_inv_ntt_upto(y, 1), 2));
    } else {
        lemma_layer_blocks(len);
        lemma_inv_upto_ntt_from(y, len / 2);
        lemma_inv_layer_scale(y, len / 2, len);
        lemma_scale_scale(x, 2, len / 2);
        assert(2 * (len / 2) == len);
    }
}

/// The inverse transform undoes the forward transform, exactly: for every
/// polynomial `p` with coefficients in `[0, 3329)`, transforming `p` forward
/// and then back gives `p`.
pub proof fn lemma_inv_ntt_ntt(p: Seq<int>)
    requires
        p.len() == 256,
        all_canonical(p),
    ensures
        spec_inv_ntt(spec_ntt(p)) == p,
{
    lemma_inv_upto_ntt_from(p, 128);
    lemma_scale_scale(p, 128, 3303);
    assert forall|i: int| 0 <= i < 256 implies ((128int * 3303) * p[i]) % 3329 == p[i] by {
        lemma_mod_shift((128int * 3303) * p[i], p[i], 127 * p[i]);
    }
    assert(spec_scale(p, 128int * 3303) =~= p);
}

} // verus!
