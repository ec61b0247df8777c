//! Lossy compression of coefficients: what it computes, how far it moves a
//! coefficient and why a second round changes nothing.
use vstd::prelude::*;
use vstd::arithmetic::power2::{lemma2_to64, pow2};
use crate::bits::{lemma_unpack_pack, spec_pack, spec_unpack, words_fit};
use crate::field::canonical;
use crate::poly::is_poly;

verus! {

/// Lossy compression of one coefficient to one of `levels` values:
/// `x * levels / 3329` rounded to the nearest integer, halves up, modulo
/// `levels`.
pub open spec fn spec_compress_to(x: int, levels: int) -> int {
    ((x * levels + 1664) / 3329) % levels
}

/// Decompression of one of `levels` values: `y * 3329 / levels` rounded to
/// the nearest integer, halves up.
pub open spec fn spec_decompress_from(y: int, levels: int) -> int {
    (y * 3329 + levels / 2) / levels
}

/// Lossy compression of one coefficient to `d` bits.
pub open spec fn spec_compress(x: int, d: int) -> int {
    spec_compress_to(x, pow2(d as nat) as int)
}

/// Decompression of one `d`-bit value.
pub open spec fn spec_decompress(y: int, d: int) -> int {
    spec_decompress_from(y, pow2(d as nat) as int)
}

/// The distance of two residues on the circle of residues modulo 3329.
pub open spec fn spec_distance(a: int, b: int) -> int {
    let u = (a - b) % 3329;
    if u <= 3329 - u {
        u
    } else {
        3329 - u
    }
}

/// The quantization error of compression to `levels` values:
/// `3329 / (2 * levels)` rounded to the nearest integer.
pub open spec fn spec_compress_bound_for(levels: int) -> int {
    ((3329 + levels) / 2) / levels
}

/// The quantization error of compression to `d` bits.
pub open spec fn spec_compress_bound(d: int) -> int {
    spec_compress_bound_for(pow2(d as nat) as int)
}

/// The numbers of levels of compression to 1, 2, ..., 11 bits.
pub open spec fn is_levels(p: int) -> bool {
    p == 2 || p == 4 || p == 8 || p == 16 || p == 32 || p == 64 || p == 128 || p == 256 || p
        == 512 || p == 1024 || p == 2048
}

/// For `1 <= d <= 11`, `2^d` is one of the numbers of levels.
pub proof fn lemma_levels(d: int)
    requires
        1 <= d <= 11,
    ensures
        is_levels(pow2(d as nat) as int),
{
    lemma2_to64();
}

/// The quantization error of compression to 2 levels is at most 832.
proof fn lemma_distance_2(x: int)
    requires
        canonical(x),
    ensures
        spec_distance(spec_decompress_from(spec_compress_to(x, 2), 2), x) <= 832,
        spec_compress_bound_for(2) == 832,
{
    let c = (x * 2 + 1664) / 3329;
    let r = (c % 2) * 3329 + 1;
    assert(0 <= c <= 2);
    assert(c < 2 ==> -832 <= r / 2 - x <= 832);
    assert(c == 2 ==> r / 2 == 0 && x >= 2497);
}

/// The quantization error of compression to 4 levels is at most 416.
proof fn lemma_distance_4(x: int)
    requires
        canonical(x),
    ensures
        spec_distance(spec_decompress_from(spec_compress_to(x, 4), 4), x) <= 416,
        spec_compress_bound_for(4) == 416,
{
    let c = (x * 4 + 1664) / 3329;
    let r = (c % 4) * 3329 + 2;
    assert(0 <= c <= 4);
    assert(c < 4 ==> -416 <= r / 4 - x <= 416);
    assert(c == 4 ==> r / 4 == 0 && x >= 2913);
}

/// The quantization error of compression to 8 levels is at most 208.
proof fn lemma_distance_8(x: int)
    requires
        canonical(x),
    ensures
        spec_distance(spec_decompress_from(spec_compress_to(x, 8), 8), x) <= 208,
        spec_compress_bound_for(8) == 208,
{
    let c = (x * 8 + 1664) / 3329;
    let r = (c % 8) * 3329 + 4;
    assert(0 <= c <= 8);
    assert(c < 8 ==> -208 <= r / 8 - x <= 208);
    assert(c == 8 ==> r / 8 == 0 && x >= 3121);
}

/// The quantization error of compression to 16 levels is at most 104.
proof fn lemma_distance_16(x: int)
    requires
        canonical(x),
    ensures
        spec_distance(spec_decompress_from(spec_compress_to(x, 16), 16), x) <= 104,
        spec_compress_bound_for(16) == 104,
{
    let c = (x * 16 + 1664) / 3329;
    let r = (c % 16) * 3329 + 8;
    assert(0 <= c <= 16);
    assert(c < 16 ==> -104 <= r / 16 - x <= 104);
    assert(c == 16 ==> r / 16 == 0 && x >= 3225);
}

/// The quantization error of compression to 32 levels is at most 52.
proof fn lemma_distance_32(x: int)
    requires
        canonical(x),
    ensures
        spec_distance(spec_decompress_from(spec_compress_to(x, 32), 32), x) <= 52,
        spec_compress_bound_for(32) == 52,
{
    let c = (x * 32 + 1664) / 3329;
    let r = (c % 32) * 3329 + 16;
    assert(0 <= c <= 32);
    assert(c < 32 ==> -52 <= r / 32 - x <= 52);
    assert(c == 32 ==> r / 32 == 0 && x >= 3277);
}

/// The quantization error of compression to 64 levels is at most 26.
proof fn lemma_distance_64(x: int)
    requires
        canonical(x),
    ensures
        spec_distance(spec_decompress_from(spec_compress_to(x, 64), 64), x) <= 26,
        spec_compress_bound_for(64) == 26,
{
    let c = (x * 64 + 1664) / 3329;
    let r = (c % 64) * 3329 + 32;
    assert(0 <= c <= 64);
    assert(c < 64 ==> -26 <= r / 64 - x <= 26);
    assert(c == 64 ==> r / 64 == 0 && x >= 3303);
}

/// The quantization error of compression to 128 levels is at most 13.
proof fn lemma_distance_128(x: int)
    requires
        canonical(x),
    ensures
        spec_distance(spec_decompress_from(spec_compress_to(x, 128), 128), x) <= 13,
        spec_compress_bound_for(128) == 13,
{
    let c = (x * 128 + 1664) / 3329;
    let r = (c % 128) * 3329 + 64;
    assert(0 <= c <= 128);
    assert(c < 128 ==> -13 <= r / 128 - x <= 13);
    assert(c == 128 ==> r / 128 == 0 && x >= 3316);
}

/// The quantization error of compression to 256 levels is at most 7.
proof fn lemma_distance_256(x: int)
    requires
        canonical(x),
    ensures
        spec_distance(spec_decompress_from(spec_compress_to(x, 256), 256), x) <= 7,
        spec_compress_bound_for(256) == 7,
{
    let c = (x * 256 + 1664) / 3329;
    let r = (c % 256) * 3329 + 128;
    assert(0 <= c <= 256);
    assert(c < 256 ==> -7 <= r / 256 - x <= 7);
    assert(c == 256 ==> r / 256 == 0 && x >= 3322);
}

/// The quantization error of compression to 512 levels is at most 3.
proof fn lemma_distance_512(x: int)
    requires
        canonical(x),
    ensures
        spec_distance(spec_decompress_from(spec_compress_to(x, 512), 512), x) <= 3,
        spec_compress_bound_for(512) == 3,
{
    let c = (x * 512 + 1664) / 3329;
    let r = (c % 512) * 3329 + 256;
    assert(0 <= c <= 512);
    assert(c < 512 ==> -3 <= r / 512 - x <= 3);
    assert(c == 512 ==> r / 512 == 0 && x >= 3326);
}

/// The quantization error of compression to 1024 levels is at most 2.
proof fn lemma_distance_1024(x: int)
    requires
        canonical(x),
    ensures
        spec_distance(spec_decompress_from(spec_compress_to(x, 1024), 1024), x) <= 2,
        spec_compress_bound_for(1024) == 2,
{
    let c = (x * 1024 + 1664) / 3329;
    let r = (c % 1024) * 3329 + 512;
    assert(0 <= c <= 1024);
    assert(c < 1024 ==> -2 <= r / 1024 - x <= 2);
    assert(c == 1024 ==> r / 1024 == 0 && x >= 3327);
}

/// The quantization error of compression to 2048 levels is at most 1.
proof fn lemma_distance_2048(x: int)
    requires
        canonical(x),
    ensures
        spec_distance(spec_decompress_from(spec_compress_to(x, 2048), 2048), x) <= 1,
        spec_compress_bound_for(2048) == 1,
{
    let c = (x * 2048 + 1664) / 3329;
    let r = (c % 2048) * 3329 + 1024;
    assert(0 <= c <= 2048);
    assert(c < 2048 ==> -1 <= r / 2048 - x <= 1);
    assert(c == 2048 ==> r / 2048 == 0 && x >= 3328);
}

/// Compression to `p` levels and back moves a coefficient by at most the
/// quantization error on the circle of residues.
proof fn lemma_levels_distance(x: int, p: int)
    requires
        is_levels(p),
        canonical(x),
    ensures
        spec_distance(spec_decompress_from(spec_compress_to(x, p), p), x)
            <= spec_compress_bound_for(p),
{
    if p == 2 {
        lemma_distance_2(x);
    } else if p == 4 {
        lemma_distance_4(x);
    } else if p == 8 {
        lemma_distance_8(x);
    } else if p == 16 {
        lemma_distance_16(x);
    } else if p == 32 {
        lemma_distance_32(x);
    } else if p == 64 {
        lemma_distance_64(x);
    } else if p == 128 {
        lemma_distance_128(x);
    } else if p == 256 {
        lemma_distance_256(x);
    } else if p == 512 {
        lemma_distance_512(x);
    } else if p == 1024 {
        lemma_distance_1024(x);
    } else {
        lemma_distance_2048(x);
    }
}

/// Compressed values are below the number of levels, decompressed values
/// are canonical, and compressing a decompressed value gives it back.
proof fn lemma_levels_laws(x: int, y: int, p: int)
    requires
        is_levels(p),
        canonical(x),
        0 <= y < p,
    ensures
        0 <= spec_compress_to(x, p) < p,
        canonical(spec_decompress_from(y, p)),
        spec_compress_to(spec_decompress_from(y, p), p) == y,
{
    if p == 2 {
    } else if p == 4 {
    } else if p == 8 {
    } else if p == 16 {
    } else if p == 32 {
    } else if p == 64 {
    } else if p == 128 {
    } else if p == 256 {
    } else if p == 512 {
    } else if p == 1024 {
    } else {
    }
}

/// Compression non-expansion for one coefficient: compressing to `d` bits
/// and decompressing moves a coefficient by at most the quantization error
/// of `d` bits.
pub proof fn lemma_compress_error(x: int, d: int)
    requires
        canonical(x),
        1 <= d <= 11,
    ensures
        0 <= spec_compress(x, d) < pow2(d as nat),
        canonical(spec_decompress(spec_compress(x, d), d)),
        spec_distance(spec_decompress(spec_compress(x, d), d), x) <= spec_compress_bound(d),
{
    lemma_levels(d);
    let p = pow2(d as nat) as int;
    lemma_levels_laws(x, 0, p);
    lemma_levels_laws(x, spec_compress_to(x, p), p);
    lemma_levels_distance(x, p);
}

/// Compressing a decompressed value gives the value back, so that a second
/// round of compression and decompression changes nothing.
pub proof fn lemma_compress_decompress(y: int, d: int)
    requires
        1 <= d <= 11,
        0 <= y < pow2(d as nat),
    ensures
        canonical(spec_decompress(y, d)),
        spec_compress(spec_decompress(y, d), d) == y,
{
    lemma_levels(d);
    lemma_levels_laws(0, y, pow2(d as nat) as int);
}

/// Every coefficient of `p` compressed to `d` bits.
pub open spec fn spec_compress_all(p: Seq<int>, d: int) -> Seq<int> {
    Seq::new(256, |i: int| spec_compress(p[i], d))
}

/// The compressed encoding of `p`: every coefficient compressed to `d` bits
/// and the results packed densely, `32 * d` bytes.
pub open spec fn spec_poly_compress(p: Seq<int>, d: int) -> Seq<u8> {
    spec_pack(spec_compress_all(p, d), d)
}

/// The polynomial that a compressed encoding stands for: the `d`-bit values
/// unpacked and each decompressed.
pub open spec fn spec_poly_decompress(buf: Seq<u8>, d: int) -> Seq<int> {
    Seq::new(256, |i: int| spec_decompress(spec_unpack(buf, d)[i], d))
}

/// Decompressing a compressed polynomial gives each coefficient
/// decompressed from its compressed value.
proof fn lemma_poly_decompress_compress(p: Seq<int>, d: int)
    requires
        is_poly(p),
        1 <= d <= 11,
    ensures
        spec_poly_decompress(spec_poly_compress(p, d), d) == Seq::new(
            256,
            |i: int| spec_decompress(spec_compress(p[i], d), d),
        ),
{
    let c = spec_compress_all(p, d);
    assert(words_fit(c, d)) by {
        assert forall|i: int| 0 <= i < c.len() implies 0 <= #[trigger] c[i] < pow2(d as nat) by {
            assert(canonical(p[i]));
            lemma_compress_error(p[i], d);
        }
    }
    assert((c.len() as int * d) % 8 == 0) by {
        assert(c.len() as int * d == 256 * d);
    }
    lemma_unpack_pack(c, d);
    let r = spec_poly_decompress(spec_poly_compress(p, d), d);
    let e = Seq::new(256, |i: int| spec_decompress(spec_compress(p[i], d), d));
    assert forall|i: int| 0 <= i < 256 implies #[trigger] r[i] == e[i] by {
        assert(spec_unpack(spec_pack(c, d), d)[i] == c[i]);
    }
    assert(r =~= e);
}

/// Compression non-expansion: compressing a polynomial to `d` bits per
/// coefficient and decompressing it moves every coefficient by at most the
/// quantization error of `d` bits, and doing both a second time changes
/// nothing.
pub proof fn lemma_poly_compress_error(p: Seq<int>, d: int)
    requires
        is_poly(p),
        1 <= d <= 11,
    ensures
        is_poly(spec_poly_decompress(spec_poly_compress(p, d), d)),
        forall|i: int|
            0 <= i < 256 ==> spec_distance(
                #[trigger] spec_poly_decompress(spec_poly_compress(p, d), d)[i],
                p[i],
            ) <= spec_compress_bound(d),
        spec_poly_decompress(
            spec_poly_compress(spec_poly_decompress(spec_poly_compress(p, d), d), d),
            d,
        ) == spec_poly_decompress(spec_poly_compress(p, d), d),
{
    let r = spec_poly_decompress(spec_poly_compress(p, d), d);
    lemma_poly_decompress_compress(p, d);
    assert forall|i: int| 0 <= i < 256 implies canonical(#[trigger] r[i]) && spec_distance(
        r[i],
        p[i],
    ) <= spec_compress_bound(d) && spec_compress(r[i], d) == spec_compress(p[i], d) by {
        assert(canonical(p[i]));
        lemma_compress_error(p[i], d);
        lemma_compress_decompress(spec_compress(p[i], d), d);
    }
    assert(is_poly(r));
    assert(spec_compress_all(r, d) =~= spec_compress_all(p, d));
}

} // verus!
