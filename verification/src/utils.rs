//! Sampling and encoding of polynomials: centered-binomial noise, uniform
//! rejection sampling, the dense 13-bit serialization, the lossy compression
//! of ciphertext components and the encoding of messages.
use vstd::prelude::*;
use vstd::arithmetic::power2::{
    lemma2_to64,
    lemma_pow2_pos,
    lemma_pow2_strictly_increases,
    lemma_pow2_unfold,
    pow2,
};
use crate::bits::{
    bit,
    bits_of_bytes,
    bits_of_words,
    byte_stream_bit,
    lemma_bit_range,
    lemma_byte_field,
    lemma_bytes_cut,
    lemma_shift_bit,
    lemma_word_field,
    lemma_words_cut,
    pack_bits,
    spec_pack,
    spec_unpack,
    unpack_bits,
    words_as_ints,
    words_fit,
};
use crate::compression::{
    lemma_compress_decompress,
    spec_compress,
    spec_compress_all,
    spec_decompress,
    spec_poly_compress,
    spec_poly_decompress,
};
use crate::field::{all_canonical, as_ints, canonical};
use crate::params::N;
use crate::poly::{Domain, Poly};

verus! {

/// `2^d` as a machine integer.
pub fn pow2_exec(d: usize) -> (r: u32)
    requires
        d <= 16,
    ensures
        r as int == pow2(d as nat),
        1 <= r <= 65536,
{
    let mut r: u32 = 1;
    let mut i: usize = 0;
    proof {
        lemma2_to64();
    }
    while i < d
        invariant
            i <= d <= 16,
            r as int == pow2(i as nat),
            1 <= r,
            pow2(16) == 65536,
        decreases d - i,
    {
        proof {
            lemma_pow2_unfold((i + 1) as nat);
            if i + 1 < 16 {
                lemma_pow2_strictly_increases((i + 1) as nat, 16);
            }
        }
        r = 2 * r;
        i += 1;
    }
    proof {
        if d < 16 {
            lemma_pow2_strictly_increases(d as nat, 16);
        }
    }
    r
}

/// The number of set bits among the `n` bits of `bytes` from bit `start` on.
pub open spec fn bit_count(bytes: Seq<u8>, start: int, n: int) -> int
    decreases n,
{
    if n <= 0 {
        0
    } else {
        byte_stream_bit(bytes, start) + bit_count(bytes, start + 1, n - 1)
    }
}

/// Coefficient `i` of the centered binomial sample of width `eta`: the
/// number of set bits in one group of `eta` bits minus the number in the
/// next group, as a residue modulo 3329.
pub open spec fn spec_cbd_at(buf: Seq<u8>, eta: int, i: int) -> int {
    (bit_count(buf, 2 * eta * i, eta) - bit_count(buf, 2 * eta * i + eta, eta)) % 3329
}

/// The centered binomial sample of width `eta` that `64 * eta` bytes give.
pub open spec fn spec_cbd(buf: Seq<u8>, eta: int) -> Seq<int> {
    Seq::new(256, |i: int| spec_cbd_at(buf, eta, i))
}

/// A bit count is between 0 and the number of bits counted.
pub proof fn lemma_bit_count_range(bytes: Seq<u8>, start: int, n: int)
    requires
        0 <= n,
    ensures
        0 <= bit_count(bytes, start, n) <= n,
    decreases n,
{
    if n > 0 {
        lemma_bit_count_range(bytes, start + 1, n - 1);
        lemma_bit_range(bytes[start / 8] as int, start % 8);
    }
}

/// Counts the set bits among the `n` bits of `buf` from bit `start` on.
fn count_bits(buf: &[u8], start: usize, n: usize) -> (c: i16)
    requires
        n <= 3,
        start + n <= 8 * buf@.len(),
        buf@.len() <= 192,
    ensures
        c as int == bit_count(buf@, start as int, n as int),
        0 <= c <= n,
{
    let mut c: i16 = 0;
    let mut t: usize = n;
    while t > 0
        invariant
            t <= n <= 3,
            start + n <= 8 * buf@.len(),
            buf@.len() <= 192,
            c as int == bit_count(buf@, start + t, n - t),
            0 <= c <= n - t,
        decreases t,
    {
        t -= 1;
        let pos = start + t;
        let byte = buf[pos / 8] as u16;
        let sh: u16 = (pos % 8) as u16;
        let b: u16 = (byte >> sh) & 1;
        proof {
            lemma_shift_bit(byte, sh);
            lemma_bit_range(byte as int, sh as int);
        }
        c = c + b as i16;
    }
    c
}

/// Centered binomial sampling of width `eta`: turns `64 * eta` bytes of
/// pseudorandom input into a polynomial in the coefficient domain with
/// coefficients in `{-eta, ..., eta}` modulo 3329.
pub fn cbd(buf: &[u8], eta: usize, poly: &mut Poly)
    requires
        2 <= eta <= 3,
        buf@.len() == 64 * eta,
    ensures
        final(poly)@ == spec_cbd(buf@, eta as int),
        final(poly).wf(),
        final(poly).domain == Domain::Coefficient,
{
    poly.domain = Domain::Coefficient;
    let mut i: usize = 0;
    while i < N
        invariant
            i <= 256,
            2 <= eta <= 3,
            buf@.len() == 64 * eta,
            poly.domain == Domain::Coefficient,
            forall|t: int| 0 <= t < i ==> poly@[t] == spec_cbd_at(buf@, eta as int, t),
        decreases 256 - i,
    {
        let ghost before = poly@;
        assert(2 * eta * i + 2 * eta <= 512 * eta) by (nonlinear_arith)
            requires
                i + 1 <= 256,
                eta >= 0,
        ;
        let base = 2 * eta * i;
        let a = count_bits(buf, base, eta);
        let b = count_bits(buf, base + eta, eta);
        let d = a - b;
        let c = if d < 0 {
            d + 3329
        } else {
            d
        };
        poly.coeffs[i] = c;
        proof {
            assert forall|t: int| 0 <= t < 256 && t != i implies #[trigger] poly@[t]
                == before[t] by {}
            assert(poly@[i as int] == c as int);
            assert(2 * (eta as int) * (i as int) == base);
        }
        i += 1;
    }
    proof {
        assert(poly@ =~= spec_cbd(buf@, eta as int));
        assert forall|t: int| 0 <= t < 256 implies canonical(#[trigger] poly@[t]) by {}
    }
}

/// Compresses one canonical coefficient to `d` bits.
fn compress_coeff(x: i16, d: usize, two_d: u32) -> (y: u16)
    requires
        canonical(x as int),
        1 <= d <= 11,
        two_d as int == pow2(d as nat),
    ensures
        y as int == spec_compress(x as int, d as int),
        0 <= y < pow2(d as nat),
{
    proof {
        lemma2_to64();
        if d < 11 {
            lemma_pow2_strictly_increases(d as nat, 11);
        }
        lemma_pow2_pos(d as nat);
    }
    assert(0 <= (x as int) * (two_d as int) <= 3328 * 2048) by (nonlinear_arith)
        requires
            0 <= x as int <= 3328,
            1 <= two_d as int <= 2048,
    ;
    let num: u32 = x as u32 * two_d + 1664;
    let y = (num / 3329) % two_d;
    y as u16
}

/// Decompresses one `d`-bit value.
fn decompress_coeff(y: u16, d: usize, two_d: u32) -> (x: i16)
    requires
        1 <= d <= 11,
        two_d as int == pow2(d as nat),
        0 <= y < pow2(d as nat),
    ensures
        x as int == spec_decompress(y as int, d as int),
        canonical(x as int),
{
    proof {
        lemma2_to64();
        if d < 11 {
            lemma_pow2_strictly_increases(d as nat, 11);
        }
        lemma_compress_decompress(y as int, d as int);
    }
    assert(0 <= (y as int) * 3329 <= 2047 * 3329) by (nonlinear_arith)
        requires
            0 <= y as int <= 2047,
    ;
    let num: u32 = y as u32 * 3329 + two_d / 2;
    (num / two_d) as i16
}

/// Compresses `poly`, which is in the coefficient domain, to `d` bits per
/// coefficient and packs the result into `32 * d` bytes.
pub fn poly_compress(poly: &Poly, d: usize) -> (buf: Vec<u8>)
    requires
        poly.wf(),
        poly.domain == Domain::Coefficient,
        1 <= d <= 11,
    ensures
        buf@ == spec_poly_compress(poly@, d as int),
        buf@.len() == 32 * d,
{
    let two_d = pow2_exec(d);
    let mut words: Vec<u16> = Vec::new();
    let mut i: usize = 0;
    while i < N
        invariant
            i <= 256,
            poly.wf(),
            1 <= d <= 11,
            two_d as int == pow2(d as nat),
            words@.len() == i,
            forall|t: int| 0 <= t < i ==> words@[t] as int == spec_compress(poly@[t], d as int),
        decreases 256 - i,
    {
        assert(canonical(poly@[i as int]));
        let y = compress_coeff(poly.coeffs[i], d, two_d);
        words.push(y);
        i += 1;
    }
    proof {
        assert(words_as_ints(words@) =~= spec_compress_all(poly@, d as int));
        assert((256 * d) % 8 == 0);
        assert(256 * d / 8 == 32 * d);
    }
    pack_bits(words.as_slice(), d)
}

/// Unpacks `32 * d` bytes into `d`-bit values and decompresses each into a
/// coefficient.  The result is in the coefficient domain.
pub fn poly_decompress(buf: &[u8], d: usize, poly: &mut Poly)
    requires
        1 <= d <= 11,
        buf@.len() == 32 * d,
    ensures
        final(poly)@ == spec_poly_decompress(buf@, d as int),
        final(poly).wf(),
        final(poly).domain == Domain::Coefficient,
{
    poly.domain = Domain::Coefficient;
    let two_d = pow2_exec(d);
    proof {
        vstd::arithmetic::div_mod::lemma_fundamental_div_mod_converse(
            buf@.len() as int * 8,
            d as int,
            256,
            0,
        );
    }
    let words = unpack_bits(buf, d);
    let ghost ws = spec_unpack(buf@, d as int);
    let mut i: usize = 0;
    while i < N
        invariant
            i <= 256,
            1 <= d <= 11,
            two_d as int == pow2(d as nat),
            words@.len() == 256,
            ws == words_as_ints(words@),
            words_fit(ws, d as int),
            poly.domain == Domain::Coefficient,
            forall|t: int| 0 <= t < i ==> poly@[t] == spec_decompress(ws[t], d as int),
            forall|t: int| 0 <= t < i ==> canonical(#[trigger] poly@[t]),
        decreases 256 - i,
    {
        let ghost before = poly@;
        assert(0 <= ws[i as int] < pow2(d as nat));
        let x = decompress_coeff(words[i], d, two_d);
        poly.coeffs[i] = x;
        proof {
            assert forall|t: int| 0 <= t < 256 && t != i implies #[trigger] poly@[t]
                == before[t] by {}
            assert(poly@[i as int] == x as int);
        }
        i += 1;
    }
    proof {
        assert(poly@ =~= spec_poly_decompress(buf@, d as int));
    }
}


/// The dense serialization of `p`: 13 bits for each coefficient, packed
/// least significant bit first, 416 bytes.
pub open spec fn spec_poly_to_bytes(p: Seq<int>) -> Seq<u8> {
    spec_pack(p, 13)
}

/// The polynomial that 416 bytes of dense serialization hold: the 13-bit
/// values, each reduced modulo 3329.
pub open spec fn spec_poly_from_bytes(buf: Seq<u8>) -> Seq<int> {
    Seq::new(256, |i: int| spec_unpack(buf, 13)[i] % 3329)
}

/// Packs 8 coefficients of 13 bits each into 13 bytes, least significant bit
/// first.
pub fn poly_tobytes_round(p: &[i16; 8]) -> (r: [u8; 13])
    requires
        forall|i: int| 0 <= i < 8 ==> 0 <= #[trigger] p@[i] < 8192,
    ensures
        r@ == spec_pack(as_ints(p@), 13),
{
    let ghost ws = as_ints(p@);
    proof {
        assert forall|i: int| 0 <= i < 8 implies 0 <= #[trigger] ws[i] < 8192 by {
            assert(0 <= p@[i] < 8192);
        }
    }
    let w0: u16 = p[0] as u16;
    let w1: u16 = p[1] as u16;
    let w2: u16 = p[2] as u16;
    let w3: u16 = p[3] as u16;
    let w4: u16 = p[4] as u16;
    let w5: u16 = p[5] as u16;
    let w6: u16 = p[6] as u16;
    let w7: u16 = p[7] as u16;
    let mut r = [0u8;13];
    r[0] = #[verifier::truncate] ((w0 & 0xff) as u8);
    r[1] = #[verifier::truncate] (((w0 >> 8) | (w1 << 5)) as u8);
    r[2] = #[verifier::truncate] (((w1 >> 3) & 0xff) as u8);
    r[3] = #[verifier::truncate] (((w1 >> 11) | (w2 << 2)) as u8);
    r[4] = #[verifier::truncate] (((w2 >> 6) | (w3 << 7)) as u8);
    r[5] = #[verifier::truncate] (((w3 >> 1) & 0xff) as u8);
    r[6] = #[verifier::truncate] (((w3 >> 9) | (w4 << 4)) as u8);
    r[7] = #[verifier::truncate] (((w4 >> 4) & 0xff) as u8);
    r[8] = #[verifier::truncate] (((w4 >> 12) | (w5 << 1)) as u8);
    r[9] = #[verifier::truncate] (((w5 >> 7) | (w6 << 6)) as u8);
    r[10] = #[verifier::truncate] (((w6 >> 2) & 0xff) as u8);
    r[11] = #[verifier::truncate] (((w6 >> 10) | (w7 << 3)) as u8);
    r[12] = #[verifier::truncate] ((w7 >> 5) as u8);
    proof {
        lemma2_to64();
        lemma_word_field(ws, 13, 0, 0, 8, 1, 256);
        assert(#[verifier::truncate] ((w0 & 0xff) as u8) == (w0 / 1) % 256) by (bit_vector)
            requires
                w0 < 8192,
        ;
        assert(r@[0] as int == bits_of_words(ws, 13, 0, 8));
        lemma_words_cut(ws, 13, 8, 5, 3, 32);
        lemma_word_field(ws, 13, 0, 8, 5, 256, 32);
        lemma_word_field(ws, 13, 1, 0, 3, 1, 8);
        assert(#[verifier::truncate] (((w0 >> 8) | (w1 << 5)) as u8)
            == (w0 / 256) % 32 + 32 * ((w1 / 1) % 8)) by (bit_vector)
            requires
                w0 < 8192,
                w1 < 8192,
        ;
        assert(r@[1] as int == bits_of_words(ws, 13, 8, 8));
        lemma_word_field(ws, 13, 1, 3, 8, 8, 256);
        assert(#[verifier::truncate] (((w1 >> 3) & 0xff) as u8) == (w1 / 8) % 256) by (bit_vector)
            requires
                w1 < 8192,
        ;
        assert(r@[2] as int == bits_of_words(ws, 13, 16, 8));
        lemma_words_cut(ws, 13, 24, 2, 6, 4);
        lemma_word_field(ws, 13, 1, 11, 2, 2048, 4);
        lemma_word_field(ws, 13, 2, 0, 6, 1, 64);
        assert(#[verifier::truncate] (((w1 >> 11) | (w2 << 2)) as u8)
            == (w1 / 2048) % 4 + 4 * ((w2 / 1) % 64)) by (bit_vector)
            requires
                w1 < 8192,
                w2 < 8192,
        ;
        assert(r@[3] as int == bits_of_words(ws, 13, 24, 8));
        lemma_words_cut(ws, 13, 32, 7, 1, 128);
        lemma_word_field(ws, 13, 2, 6, 7, 64, 128);
        lemma_word_field(ws, 13, 3, 0, 1, 1, 2);
        assert(#[verifier::truncate] (((w2 >> 6) | (w3 << 7)) as u8)
            == (w2 / 64) % 128 + 128 * ((w3 / 1) % 2)) by (bit_vector)
            requires
                w2 < 8192,
                w3 < 8192,
        ;
        assert(r@[4] as int == bits_of_words(ws, 13, 32, 8));
        lemma_word_field(ws, 13, 3, 1, 8, 2, 256);
        assert(#[verifier::truncate] (((w3 >> 1) & 0xff) as u8) == (w3 / 2) % 256) by (bit_vector)
            requires
                w3 < 8192,
        ;
        assert(r@[5] as int == bits_of_words(ws, 13, 40, 8));
        lemma_words_cut(ws, 13, 48, 4, 4, 16);
        lemma_word_field(ws, 13, 3, 9, 4, 512, 16);
        lemma_word_field(ws, 13, 4, 0, 4, 1, 16);
        assert(#[verifier::truncate] (((w3 >> 9) | (w4 << 4)) as u8)
            == (w3 / 512) % 16 + 16 * ((w4 / 1) % 16)) by (bit_vector)
            requires
                w3 < 8192,
                w4 < 8192,
        ;
        assert(r@[6] as int == bits_of_words(ws, 13, 48, 8));
        lemma_word_field(ws, 13, 4, 4, 8, 16, 256);
        assert(#[verifier::truncate] (((w4 >> 4) & 0xff) as u8) == (w4 / 16) % 256) by (bit_vector)
            requires
                w4 < 8192,
        ;
        assert(r@[7] as int == bits_of_words(ws, 13, 56, 8));
        lemma_words_cut(ws, 13, 64, 1, 7, 2);
        lemma_word_field(ws, 13, 4, 12, 1, 4096, 2);
        lemma_word_field(ws, 13, 5, 0, 7, 1, 128);
        assert(#[verifier::truncate] (((w4 >> 12) | (w5 << 1)) as u8)
            == (w4 / 4096) % 2 + 2 * ((w5 / 1) % 128)) by (bit_vector)
            requires
                w4 < 8192,
                w5 < 8192,
        ;
        assert(r@[8] as int == bits_of_words(ws, 13, 64, 8));
        lemma_words_cut(ws, 13, 72, 6, 2, 64);
        lemma_word_field(ws, 13, 5, 7, 6, 128, 64);
        lemma_word_field(ws, 13, 6, 0, 2, 1, 4);
        assert(#[verifier::truncate] (((w5 >> 7) | (w6 << 6)) as u8)
            == (w5 / 128) % 64 + 64 * ((w6 / 1) % 4)) by (bit_vector)
            requires
                w5 < 8192,
                w6 < 8192,
        ;
        assert(r@[9] as int == bits_of_words(ws, 13, 72, 8));
        lemma_word_field(ws, 13, 6, 2, 8, 4, 256);
        assert(#[verifier::truncate] (((w6 >> 2) & 0xff) as u8) == (w6 / 4) % 256) by (bit_vector)
            requires
                w6 < 8192,
        ;
        assert(r@[10] as int == bits_of_words(ws, 13, 80, 8));
        lemma_words_cut(ws, 13, 88, 3, 5, 8);
        lemma_word_field(ws, 13, 6, 10, 3, 1024, 8);
        lemma_word_field(ws, 13, 7, 0, 5, 1, 32);
        assert(#[verifier::truncate] (((w6 >> 10) | (w7 << 3)) as u8)
            == (w6 / 1024) % 8 + 8 * ((w7 / 1) % 32)) by (bit_vector)
            requires
                w6 < 8192,
                w7 < 8192,
        ;
        assert(r@[11] as int == bits_of_words(ws, 13, 88, 8));
        lemma_word_field(ws, 13, 7, 5, 8, 32, 256);
        assert(#[verifier::truncate] ((w7 >> 5) as u8) == (w7 / 32) % 256) by (bit_vector)
            requires
                w7 < 8192,
        ;
        assert(r@[12] as int == bits_of_words(ws, 13, 96, 8));
        assert(r@ =~= spec_pack(ws, 13));
    }
    r
}

/// Reads 8 values of 13 bits each from 13 bytes.
pub fn poly_frombytes_round(p: &[u8; 13]) -> (r: [i16; 8])
    ensures
        as_ints(r@) == spec_unpack(p@, 13),
        forall|i: int| 0 <= i < 8 ==> 0 <= #[trigger] r@[i] < 8192,
{
    let ghost bs = p@;
    let b0: u16 = p[0] as u16;
    let b1: u16 = p[1] as u16;
    let b2: u16 = p[2] as u16;
    let b3: u16 = p[3] as u16;
    let b4: u16 = p[4] as u16;
    let b5: u16 = p[5] as u16;
    let b6: u16 = p[6] as u16;
    let b7: u16 = p[7] as u16;
    let b8: u16 = p[8] as u16;
    let b9: u16 = p[9] as u16;
    let b10: u16 = p[10] as u16;
    let b11: u16 = p[11] as u16;
    let b12: u16 = p[12] as u16;
    let v0: u16 = b0 | ((b1 & 0x1f) << 8);
    let v1: u16 = (b1 >> 5) | (b2 << 3) | ((b3 & 0x3) << 11);
    let v2: u16 = (b3 >> 2) | ((b4 & 0x7f) << 6);
    let v3: u16 = (b4 >> 7) | (b5 << 1) | ((b6 & 0xf) << 9);
    let v4: u16 = (b6 >> 4) | (b7 << 4) | ((b8 & 0x1) << 12);
    let v5: u16 = (b8 >> 1) | ((b9 & 0x3f) << 7);
    let v6: u16 = (b9 >> 6) | (b10 << 2) | ((b11 & 0x7) << 10);
    let v7: u16 = (b11 >> 3) | (b12 << 5);
    proof {
        lemma2_to64();
        lemma_bytes_cut(bs, 0, 8, 5, 256);
        lemma_byte_field(bs, 0, 0, 8, 1, 256);
        lemma_byte_field(bs, 1, 0, 5, 1, 32);
        assert(b0 | ((b1 & 0x1f) << 8) == (b0 / 1) % 256 + 256 * ((b1 / 1) % 32)
            && (b0 | ((b1 & 0x1f) << 8)) < 8192) by (bit_vector)
            requires
                b0 < 256,
                b1 < 256,
        ;
        assert(v0 as int == bits_of_bytes(bs, 0, 13));
        lemma_bytes_cut(bs, 13, 3, 10, 8);
        lemma_bytes_cut(bs, 16, 8, 2, 256);
        lemma_byte_field(bs, 1, 5, 3, 32, 8);
        lemma_byte_field(bs, 2, 0, 8, 1, 256);
        lemma_byte_field(bs, 3, 0, 2, 1, 4);
        assert((b1 >> 5) | (b2 << 3) | ((b3 & 0x3) << 11)
            == (b1 / 32) % 8 + 8 * ((b2 / 1) % 256 + 256 * ((b3 / 1) % 4))
            && ((b1 >> 5) | (b2 << 3) | ((b3 & 0x3) << 11)) < 8192) by (bit_vector)
            requires
                b1 < 256,
                b2 < 256,
                b3 < 256,
        ;
        assert(v1 as int == bits_of_bytes(bs, 13, 13));
        lemma_bytes_cut(bs, 26, 6, 7, 64);
        lemma_byte_field(bs, 3, 2, 6, 4, 64);
        lemma_byte_field(bs, 4, 0, 7, 1, 128);
        assert((b3 >> 2) | ((b4 & 0x7f) << 6) == (b3 / 4) % 64 + 64 * ((b4 / 1) % 128)
            && ((b3 >> 2) | ((b4 & 0x7f) << 6)) < 8192) by (bit_vector)
            requires
                b3 < 256,
                b4 < 256,
        ;
        assert(v2 as int == bits_of_bytes(bs, 26, 13));
        lemma_bytes_cut(bs, 39, 1, 12, 2);
        lemma_bytes_cut(bs, 40, 8, 4, 256);
        lemma_byte_field(bs, 4, 7, 1, 128, 2);
        lemma_byte_field(bs, 5, 0, 8, 1, 256);
        lemma_byte_field(bs, 6, 0, 4, 1, 16);
        assert((b4 >> 7) | (b5 << 1) | ((b6 & 0xf) << 9)
            == (b4 / 128) % 2 + 2 * ((b5 / 1) % 256 + 256 * ((b6 / 1) % 16))
            && ((b4 >> 7) | (b5 << 1) | ((b6 & 0xf) << 9)) < 8192) by (bit_vector)
            requires
                b4 < 256,
                b5 < 256,
                b6 < 256,
        ;
        assert(v3 as int == bits_of_bytes(bs, 39, 13));
        lemma_bytes_cut(bs, 52, 4, 9, 16);
        lemma_bytes_cut(bs, 56, 8, 1, 256);
        lemma_byte_field(bs, 6, 4, 4, 16, 16);
        lemma_byte_field(bs, 7, 0, 8, 1, 256);
        lemma_byte_field(bs, 8, 0, 1, 1, 2);
        assert((b6 >> 4) | (b7 << 4) | ((b8 & 0x1) << 12)
            == (b6 / 16) % 16 + 16 * ((b7 / 1) % 256 + 256 * ((b8 / 1) % 2))
            && ((b6 >> 4) | (b7 << 4) | ((b8 & 0x1) << 12)) < 8192) by (bit_vector)
            requires
                b6 < 256,
                b7 < 256,
                b8 < 256,
        ;
        assert(v4 as int == bits_of_bytes(bs, 52, 13));
        lemma_bytes_cut(bs, 65, 7, 6, 128);
        lemma_byte_field(bs, 8, 1, 7, 2, 128);
        lemma_byte_field(bs, 9, 0, 6, 1, 64);
        assert((b8 >> 1) | ((b9 & 0x3f) << 7) == (b8 / 2) % 128 + 128 * ((b9 / 1) % 64)
            && ((b8 >> 1) | ((b9 & 0x3f) << 7)) < 8192) by (bit_vector)
            requires
                b8 < 256,
                b9 < 256,
        ;
        assert(v5 as int == bits_of_bytes(bs, 65, 13));
        lemma_bytes_cut(bs, 78, 2, 11, 4);
        lemma_bytes_cut(bs, 80, 8, 3, 256);
        lemma_byte_field(bs, 9, 6, 2, 64, 4);
        lemma_byte_field(bs, 10, 0, 8, 1, 256);
        lemma_byte_field(bs, 11, 0, 3, 1, 8);
        assert((b9 >> 6) | (b10 << 2) | ((b11 & 0x7) << 10)
            == (b9 / 64) % 4 + 4 * ((b10 / 1) % 256 + 256 * ((b11 / 1) % 8))
            && ((b9 >> 6) | (b10 << 2) | ((b11 & 0x7) << 10)) < 8192) by (bit_vector)
            requires
                b9 < 256,
                b10 < 256,
                b11 < 256,
        ;
        assert(v6 as int == bits_of_bytes(bs, 78, 13));
        lemma_bytes_cut(bs, 91, 5, 8, 32);
        lemma_byte_field(bs, 11, 3, 5, 8, 32);
        lemma_byte_field(bs, 12, 0, 8, 1, 256);
        assert((b11 >> 3) | (b12 << 5) == (b11 / 8) % 32 + 32 * ((b12 / 1) % 256)
            && ((b11 >> 3) | (b12 << 5)) < 8192) by (bit_vector)
            requires
                b11 < 256,
                b12 < 256,
        ;
        assert(v7 as int == bits_of_bytes(bs, 91, 13));
    }
    let r: [i16; 8] = [
        v0 as i16,
        v1 as i16,
        v2 as i16,
        v3 as i16,
        v4 as i16,
        v5 as i16,
        v6 as i16,
        v7 as i16,
    ];
    proof {
        assert(as_ints(r@) =~= spec_unpack(bs, 13));
    }
    r
}

/// Serializes `poly` densely: 416 bytes, 13 bits for each coefficient.
pub fn poly_to_bytes(poly: &Poly) -> (buf: Vec<u8>)
    requires
        poly.wf(),
    ensures
        buf@ == spec_poly_to_bytes(poly@),
        buf@.len() == 416,
{
    let ghost full = spec_pack(poly@, 13);
    let mut buf: Vec<u8> = Vec::new();
    let mut t = [0i16;8];
    let mut i: usize = 0;
    while i < N / 8
        invariant
            i <= 32,
            poly.wf(),
            full == spec_pack(poly@, 13),
            buf@.len() == 13 * i,
            forall|k: int| 0 <= k < 13 * i ==> buf@[k] == full[k],
        decreases 32 - i,
    {
        let mut j: usize = 0;
        while j < 8
            invariant
                j <= 8,
                i < 32,
                poly.wf(),
                forall|s: int| 0 <= s < j ==> t@[s] as int == poly@[8 * i + s],
            decreases 8 - j,
        {
            t[j] = poly.coeffs[8 * i + j];
            j += 1;
        }
        let ghost before = buf@;
        proof {
            assert forall|s: int| 0 <= s < 8 implies 0 <= #[trigger] t@[s] < 8192 by {
                assert(canonical(poly@[8 * i + s]));
            }
        }
        let round = poly_tobytes_round(&t);
        crate::bytes::append_bytes(&mut buf, round.as_slice());
        proof {
            let group = poly@.subrange(8 * i, 8 * i + 8);
            assert(as_ints(t@) =~= group);
            assert forall|k: int| 0 <= k < 13 implies round@[k] == full[13 * i + k] by {
                crate::bits::lemma_bits_of_words_window(poly@, 13, 8 * i as int, 8, 8 * k, 8);
            }
            assert forall|k: int| 0 <= k < 13 * (i + 1) implies buf@[k] == full[k] by {
                if k >= 13 * i {
                    assert(buf@[k] == round@[k - 13 * i]);
                } else {
                    assert(buf@[k] == before[k]);
                }
            }
        }
        i += 1;
    }
    proof {
        assert(buf@ =~= full);
    }
    buf
}

/// Reads a polynomial from 416 bytes of dense serialization; values of
/// 3329 and above are reduced modulo 3329.  The bytes do not say which
/// domain the polynomial is in: the caller does.
pub fn poly_from_bytes(buf: &[u8], domain: Domain, poly: &mut Poly)
    requires
        buf@.len() == 416,
    ensures
        final(poly)@ == spec_poly_from_bytes(buf@),
        final(poly).wf(),
        final(poly).domain == domain,
{
    poly.domain = domain;
    let ghost full = spec_unpack(buf@, 13);
    let mut i: usize = 0;
    while i < N / 8
        invariant
            i <= 32,
            buf@.len() == 416,
            full == spec_unpack(buf@, 13),
            poly.domain == domain,
            forall|s: int| 0 <= s < 8 * i ==> poly@[s] == full[s] % 3329,
        decreases 32 - i,
    {
        let mut chunk = [0u8;13];
        let mut k: usize = 0;
        while k < 13
            invariant
                k <= 13,
                i < 32,
                buf@.len() == 416,
                forall|s: int| 0 <= s < k ==> chunk@[s] == buf@[13 * i + s],
            decreases 13 - k,
        {
            chunk[k] = buf[13 * i + k];
            k += 1;
        }
        let vals = poly_frombytes_round(&chunk);
        proof {
            assert(chunk@ =~= buf@.subrange(13 * i as int, 13 * i + 13));
            assert forall|s: int| 0 <= s < 8 implies vals@[s] as int == full[8 * i + s] by {
                crate::bits::lemma_bits_of_bytes_window(buf@, 13 * i as int, 13, 13 * s, 13);
                assert(as_ints(vals@)[s] == spec_unpack(chunk@, 13)[s]);
            }
        }
        let mut j: usize = 0;
        while j < 8
            invariant
                j <= 8,
                i < 32,
                full.len() == 256,
                forall|s: int| 0 <= s < 8 ==> 0 <= #[trigger] vals@[s] < 8192,
                forall|s: int| 0 <= s < 8 ==> vals@[s] as int == full[8 * i + s],
                poly.domain == domain,
                forall|s: int| 0 <= s < 8 * i + j ==> poly@[s] == full[s] % 3329,
            decreases 8 - j,
        {
            let ghost before = poly@;
            assert(0 <= vals@[j as int] < 8192);
            let c: i16 = vals[j] % 3329;
            poly.coeffs[8 * i + j] = c;
            proof {
                assert forall|s: int| 0 <= s < 256 && s != 8 * i + j implies #[trigger] poly@[s]
                    == before[s] by {}
                assert(poly@[8 * i + j] == c as int);
            }
            j += 1;
        }
        i += 1;
    }
    proof {
        assert(poly@ =~= spec_poly_from_bytes(buf@));
        assert forall|s: int| 0 <= s < 256 implies canonical(#[trigger] poly@[s]) by {}
    }
}

/// Canonical coefficients fit in 13 bits.
proof fn lemma_poly_fits(p: Seq<int>)
    requires
        all_canonical(p),
    ensures
        words_fit(p, 13),
{
    lemma2_to64();
    assert(pow2(13) == 8192);
    assert forall|i: int| 0 <= i < p.len() implies 0 <= #[trigger] p[i] < pow2(13) by {
        assert(canonical(p[i]));
    }
}

/// Reducing canonical coefficients modulo 3329 changes nothing.
proof fn lemma_reduce_canonical(u: Seq<int>)
    requires
        crate::poly::is_poly(u),
    ensures
        Seq::new(256, |i: int| u[i] % 3329) == u,
{
    let q = Seq::new(256, |i: int| u[i] % 3329);
    assert forall|i: int| 0 <= i < 256 implies #[trigger] q[i] == u[i] by {
        assert(canonical(u[i]));
    }
    assert(q =~= u);
}

/// Reading a serialized polynomial gives the polynomial back, exactly.
pub proof fn lemma_poly_bytes_round_trip(p: Seq<int>)
    requires
        crate::poly::is_poly(p),
    ensures
        spec_poly_from_bytes(spec_poly_to_bytes(p)) == p,
{
    lemma_poly_fits(p);
    crate::bits::lemma_unpack_pack(p, 13);
    lemma_reduce_canonical(p);
}

/// The first 12-bit candidate of the 3-byte group `g` of a stream.
pub open spec fn spec_candidate_lo(s: Seq<u8>, g: int) -> int {
    s[3 * g] as int + 256 * (s[3 * g + 1] as int % 16)
}

/// The second 12-bit candidate of the 3-byte group `g` of a stream.
pub open spec fn spec_candidate_hi(s: Seq<u8>, g: int) -> int {
    s[3 * g + 1] as int / 16 + 16 * (s[3 * g + 2] as int)
}

/// The candidates below 3329 among the first `groups` 3-byte groups of a
/// stream, in the order in which they occur.
pub open spec fn spec_accepted(s: Seq<u8>, groups: int) -> Seq<int>
    decreases groups,
{
    if groups <= 0 {
        Seq::empty()
    } else {
        let prev = spec_accepted(s, groups - 1);
        let lo = spec_candidate_lo(s, groups - 1);
        let hi = spec_candidate_hi(s, groups - 1);
        let with_lo = if lo < 3329 {
            prev.push(lo)
        } else {
            prev
        };
        if hi < 3329 {
            with_lo.push(hi)
        } else {
            with_lo
        }
    }
}

/// All accepted candidates of a stream; bytes after the last whole group of
/// three are not used.
pub open spec fn spec_uniform_candidates(s: Seq<u8>) -> Seq<int> {
    spec_accepted(s, s.len() as int / 3)
}

/// The polynomial `p` with its first coefficients replaced by the accepted
/// candidates of the stream, as far as they reach.
pub open spec fn spec_sample_ntt(s: Seq<u8>, p: Seq<int>) -> Seq<int> {
    let c = spec_uniform_candidates(s);
    Seq::new(
        256,
        |i: int|
            if i < c.len() {
                c[i]
            } else {
                p[i]
            },
    )
}

/// Accepted candidates are canonical, and more groups only add candidates
/// at the end.
pub proof fn lemma_accepted_prefix(s: Seq<u8>, g: int, h: int)
    requires
        0 <= g <= h,
    ensures
        spec_accepted(s, g).len() <= spec_accepted(s, h).len(),
        forall|t: int|
            0 <= t < spec_accepted(s, g).len() ==> spec_accepted(s, h)[t] == spec_accepted(s, g)[t],
        all_canonical(spec_accepted(s, h)),
    decreases h,
{
    if h > 0 {
        if g < h {
            lemma_accepted_prefix(s, g, h - 1);
        } else {
            lemma_accepted_prefix(s, h - 1, h - 1);
        }
        let prev = spec_accepted(s, h - 1);
        let lo = spec_candidate_lo(s, h - 1);
        let hi = spec_candidate_hi(s, h - 1);
        assert(0 <= lo && 0 <= hi);
        let with_lo = if lo < 3329 {
            prev.push(lo)
        } else {
            prev
        };
        assert(forall|t: int| 0 <= t < prev.len() ==> with_lo[t] == prev[t]);
        assert(all_canonical(with_lo));
    }
}

/// Uniform rejection sampling: fills `poly` from the front with the
/// candidates below 3329 that the stream holds, two 12-bit candidates to
/// every 3 bytes, until all 256 coefficients are set or the stream ends.
/// Returns how many coefficients were set.  A polynomial that was filled
/// is in the evaluation domain; one that was not keeps its tag.
pub fn sample_ntt(xof_out: &[u8], poly: &mut Poly) -> (filled: usize)
    ensures
        filled == if spec_uniform_candidates(xof_out@).len() < 256 {
            spec_uniform_candidates(xof_out@).len()
        } else {
            256
        },
        final(poly)@ == spec_sample_ntt(xof_out@, old(poly)@),
        filled == 256 ==> final(poly).wf() && final(poly).domain == Domain::Evaluation,
        filled < 256 ==> final(poly).domain == old(poly).domain,
{
    let ghost start = poly@;
    let ghost s = xof_out@;
    let ghost mut g: int = 0;
    let mut i: usize = 0;
    let mut j: usize = 0;
    let len = xof_out.len();
    while j < N && len - i >= 3
        invariant
            s == xof_out@,
            len == s.len(),
            0 <= g,
            i == 3 * g,
            i <= len,
            j <= 256,
            start.len() == 256,
            poly.domain == old(poly).domain,
            j == if spec_accepted(s, g).len() < 256 {
                spec_accepted(s, g).len()
            } else {
                256
            },
            forall|t: int| 0 <= t < j ==> poly@[t] == spec_accepted(s, g)[t],
            forall|t: int| j <= t < 256 ==> poly@[t] == start[t],
        decreases len - i,
    {
        let t1 = xof_out[i] as u16;
        let t2 = xof_out[i + 1] as u16;
        let t3 = xof_out[i + 2] as u16;
        let d1: u16 = t1 | ((t2 & 0x0f) << 8);
        let d2: u16 = (t2 >> 4) | (t3 << 4);
        proof {
            assert(t1 | ((t2 & 0x0f) << 8) == t1 + 256 * (t2 % 16)) by (bit_vector)
                requires
                    t1 < 256,
                    t2 < 256,
            ;
            assert((t2 >> 4) | (t3 << 4) == t2 / 16 + 16 * t3) by (bit_vector)
                requires
                    t2 < 256,
                    t3 < 256,
            ;
            assert(d1 as int == spec_candidate_lo(s, g));
            assert(d2 as int == spec_candidate_hi(s, g));
        }
        let ghost prev = spec_accepted(s, g);
        let ghost next = spec_accepted(s, g + 1);
        proof {
            lemma_accepted_prefix(s, g, g + 1);
        }
        if d1 < 3329 {
            let ghost before = poly@;
            poly.coeffs[j] = d1 as i16;
            proof {
                assert forall|t: int| 0 <= t < 256 && t != j implies #[trigger] poly@[t]
                    == before[t] by {}
                assert(poly@[j as int] == d1 as int);
                assert(next[prev.len() as int] == d1 as int);
            }
            j += 1;
        }
        if j < N && d2 < 3329 {
            let ghost before = poly@;
            poly.coeffs[j] = d2 as i16;
            proof {
                assert forall|t: int| 0 <= t < 256 && t != j implies #[trigger] poly@[t]
                    == before[t] by {}
                assert(poly@[j as int] == d2 as int);
                assert(next[next.len() - 1] == d2 as int);
            }
            j += 1;
        }
        i += 3;
        proof {
            g = g + 1;
        }
    }
    proof {
        let all = spec_uniform_candidates(s);
        assert(g <= len as int / 3);
        lemma_accepted_prefix(s, g, len as int / 3);
        if j < 256 {
            assert(g == len as int / 3);
        }
        assert(poly@ =~= spec_sample_ntt(s, start));
        if j == 256 {
            assert forall|t: int| 0 <= t < 256 implies canonical(#[trigger] poly@[t]) by {
                assert(canonical(all[t]));
            }
        }
    }
    if j == N {
        poly.domain = Domain::Evaluation;
    }
    j
}

/// Whether a coefficient decodes to a set message bit: whether it is
/// nearer to 1665 than to 0 modulo 3329.
pub open spec fn spec_msg_bit(x: int) -> int {
    if 833 <= x <= 2496 {
        1
    } else {
        0
    }
}

/// The polynomial that stands for a 32-byte message: coefficient `i` is 1665
/// where bit `i` of the message is set and 0 where it is not.
pub open spec fn spec_poly_from_msg(msg: Seq<u8>) -> Seq<int> {
    Seq::new(256, |i: int| 1665 * byte_stream_bit(msg, i))
}

/// The message that a polynomial stands for: bit `i` is set where
/// coefficient `i` is nearer to 1665 than to 0.
pub open spec fn spec_poly_to_msg(p: Seq<int>) -> Seq<u8> {
    spec_pack(Seq::new(256, |i: int| spec_msg_bit(p[i])), 1)
}

/// Encodes a 32-byte message as a polynomial in the coefficient domain, one
/// bit to a coefficient.
pub fn poly_from_msg(msg: &[u8; 32]) -> (poly: Poly)
    ensures
        poly@ == spec_poly_from_msg(msg@),
        poly.wf(),
        poly.domain == Domain::Coefficient,
{
    let mut poly = Poly::new();
    let mut i: usize = 0;
    while i < N
        invariant
            i <= 256,
            poly.domain == Domain::Coefficient,
            forall|t: int| 0 <= t < i ==> poly@[t] == 1665 * byte_stream_bit(msg@, t),
        decreases 256 - i,
    {
        let ghost before = poly@;
        let byte = msg[i / 8] as u16;
        let sh: u16 = (i % 8) as u16;
        let b: u16 = (byte >> sh) & 1;
        proof {
            lemma_shift_bit(byte, sh);
            lemma_bit_range(byte as int, sh as int);
        }
        let c: i16 = 1665 * (b as i16);
        poly.coeffs[i] = c;
        proof {
            assert forall|t: int| 0 <= t < 256 && t != i implies #[trigger] poly@[t]
                == before[t] by {}
            assert(poly@[i as int] == c as int);
        }
        i += 1;
    }
    proof {
        assert(poly@ =~= spec_poly_from_msg(msg@));
        assert forall|t: int| 0 <= t < 256 implies canonical(#[trigger] poly@[t]) by {
            lemma_bit_range(msg@[t / 8] as int, t % 8);
        }
    }
    poly
}

/// Decodes a polynomial in the coefficient domain to a 32-byte message,
/// rounding each coefficient to the nearer of 0 and 1665.
pub fn poly_to_msg(poly: &Poly) -> (msg: [u8; 32])
    requires
        poly.wf(),
        poly.domain == Domain::Coefficient,
    ensures
        msg@ == spec_poly_to_msg(poly@),
{
    let mut bits: Vec<u16> = Vec::new();
    let mut i: usize = 0;
    while i < N
        invariant
            i <= 256,
            bits@.len() == i,
            forall|t: int| 0 <= t < i ==> bits@[t] as int == spec_msg_bit(poly@[t]),
        decreases 256 - i,
    {
        let c = poly.coeffs[i];
        let b: u16 = if 833 <= c && c <= 2496 {
            1
        } else {
            0
        };
        bits.push(b);
        i += 1;
    }
    proof {
        assert(words_as_ints(bits@) =~= Seq::new(256, |i: int| spec_msg_bit(poly@[i])));
    }
    let packed = pack_bits(bits.as_slice(), 1);
    crate::bytes::to_array(packed.as_slice())
}

} // verus!
