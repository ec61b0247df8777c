//! Bit-level packing: sequences of `d`-bit words laid out densely in bytes,
//! least significant bit first, and the way back.
use vstd::prelude::*;
use vstd::arithmetic::div_mod::{
    lemma_fundamental_div_mod,
    lemma_fundamental_div_mod_converse,
    lemma_mod_pos_bound,
    lemma_multiply_divide_lt,
};
use vstd::arithmetic::power2::{lemma2_to64, lemma_pow2_pos, lemma_pow2_unfold, pow2};

verus! {

/// Bit `t` of the binary expansion of `x`.
pub open spec fn bit(x: int, t: int) -> int
    decreases t,
{
    if t <= 0 {
        x % 2
    } else {
        bit(x / 2, t - 1)
    }
}

/// Bit `n` of a byte string read as one long little-endian bit string.
pub open spec fn byte_stream_bit(bytes: Seq<u8>, n: int) -> int {
    bit(bytes[n / 8] as int, n % 8)
}

/// Bit `n` of a sequence of words of `d` bits each, read as one long
/// little-endian bit string.
pub open spec fn word_stream_bit(words: Seq<int>, d: int, n: int) -> int {
    bit(words[n / d], n % d)
}

/// The number whose binary digits are the `n` bits of `bytes` from bit
/// `start` on, least significant first.
pub open spec fn bits_of_bytes(bytes: Seq<u8>, start: int, n: int) -> int
    decreases n,
{
    if n <= 0 {
        0
    } else {
        byte_stream_bit(bytes, start) + 2 * bits_of_bytes(bytes, start + 1, n - 1)
    }
}

/// The number whose binary digits are the `n` bits of the word string from
/// bit `start` on, least significant first.
pub open spec fn bits_of_words(words: Seq<int>, d: int, start: int, n: int) -> int
    decreases n,
{
    if n <= 0 {
        0
    } else {
        word_stream_bit(words, d, start) + 2 * bits_of_words(words, d, start + 1, n - 1)
    }
}

/// The low `d` bits of every word, packed densely into bytes.
pub open spec fn spec_pack(words: Seq<int>, d: int) -> Seq<u8> {
    Seq::new((words.len() as int * d / 8) as nat, |k: int| bits_of_words(words, d, 8 * k, 8) as u8)
}

/// The words of `d` bits each that a byte string holds.
pub open spec fn spec_unpack(bytes: Seq<u8>, d: int) -> Seq<int> {
    Seq::new((bytes.len() as int * 8 / d) as nat, |i: int| bits_of_bytes(bytes, d * i, d))
}

/// Whether every word is below `2^d`.
pub open spec fn words_fit(words: Seq<int>, d: int) -> bool {
    forall|i: int| 0 <= i < words.len() ==> 0 <= #[trigger] words[i] < pow2(d as nat)
}

/// The words as mathematical integers.
pub open spec fn words_as_ints(s: Seq<u16>) -> Seq<int> {
    Seq::new(s.len(), |i: int| s[i] as int)
}

/// A bit is 0 or 1.
pub proof fn lemma_bit_range(x: int, t: int)
    ensures
        0 <= bit(x, t) <= 1,
    decreases t,
{
    if t > 0 {
        lemma_bit_range(x / 2, t - 1);
    }
}

/// `n` bits make a number below `2^n`.
pub proof fn lemma_bits_of_bytes_range(bytes: Seq<u8>, start: int, n: int)
    requires
        0 <= n,
    ensures
        0 <= bits_of_bytes(bytes, start, n) < pow2(n as nat),
    decreases n,
{
    lemma2_to64();
    if n > 0 {
        lemma_bits_of_bytes_range(bytes, start + 1, n - 1);
        lemma_bit_range(bytes[start / 8] as int, start % 8);
        lemma_pow2_unfold(n as nat);
    }
}

/// `n` bits make a number below `2^n`.
pub proof fn lemma_bits_of_words_range(words: Seq<int>, d: int, start: int, n: int)
    requires
        0 <= n,
    ensures
        0 <= bits_of_words(words, d, start, n) < pow2(n as nat),
    decreases n,
{
    lemma2_to64();
    if n > 0 {
        lemma_bits_of_words_range(words, d, start + 1, n - 1);
        lemma_bit_range(words[start / d], start % d);
        lemma_pow2_unfold(n as nat);
    }
}

/// Shifting right by `t` and masking reads bit `t`.
pub proof fn lemma_shift_bit(x: u16, t: u16)
    requires
        t < 16,
    ensures
        ((x >> t) & 1) as int == bit(x as int, t as int),
    decreases t,
{
    if t == 0 {
        assert((x >> 0u16) & 1 == x % 2) by (bit_vector);
    } else {
        let h: u16 = x / 2;
        let s: u16 = (t - 1) as u16;
        lemma_shift_bit(h, s);
        assert((h >> s) & 1 == (x >> t) & 1) by (bit_vector)
            requires
                h == x / 2,
                1 <= t < 16,
                s == t - 1,
        ;
    }
}

/// Packs the low `d` bits of every word densely into bytes, least
/// significant bit first.
pub fn pack_bits(words: &[u16], d: usize) -> (out: Vec<u8>)
    requires
        1 <= d <= 13,
        words@.len() <= 256,
        (words@.len() * d) % 8 == 0,
    ensures
        out@ == spec_pack(words_as_ints(words@), d as int),
        out@.len() == words@.len() * d / 8,
{
    let ghost ws = words_as_ints(words@);
    let count = words.len();
    assert(0 <= count * d <= 256 * 13) by (nonlinear_arith)
        requires
            0 <= count <= 256,
            1 <= d <= 13,
    ;
    let nbytes = count * d / 8;
    let mut out: Vec<u8> = Vec::new();
    let mut k: usize = 0;
    while k < nbytes
        invariant
            1 <= d <= 13,
            count == words@.len(),
            count <= 256,
            count * d <= 256 * 13,
            (count * d) % 8 == 0,
            nbytes == count * d / 8,
            ws == words_as_ints(words@),
            k <= nbytes,
            out@.len() == k,
            forall|i: int|
                0 <= i < k ==> out@[i] as int == bits_of_words(ws, d as int, 8 * i, 8),
        decreases nbytes - k,
    {
        let mut b: u32 = 0;
        let mut r: usize = 8;
        while r > 0
            invariant
                1 <= d <= 13,
                count == words@.len(),
                count * d <= 256 * 13,
                (count * d) % 8 == 0,
                nbytes == count * d / 8,
                ws == words_as_ints(words@),
                k < nbytes,
                r <= 8,
                b as int == bits_of_words(ws, d as int, 8 * k + r, 8 - r),
            decreases r,
        {
            r -= 1;
            let n = 8 * k + r;
            proof {
                assert((d as int) * (count as int) == count * d) by (nonlinear_arith);
                lemma_multiply_divide_lt(n as int, d as int, count as int);
                lemma_mod_pos_bound(n as int, d as int);
            }
            let w = words[n / d];
            let sh: u16 = (n % d) as u16;
            let bitv: u16 = (w >> sh) & 1;
            proof {
                lemma_shift_bit(w, sh);
                lemma_bit_range(w as int, sh as int);
                lemma_bits_of_words_range(ws, d as int, n + 1, 8 - r - 1);
                lemma2_to64();
                assert(pow2((8 - r - 1) as nat) <= 128);
            }
            b = 2 * b + bitv as u32;
        }
        proof {
            lemma_bits_of_words_range(ws, d as int, 8 * k, 8);
            lemma2_to64();
        }
        out.push(b as u8);
        k += 1;
    }
    proof {
        assert forall|i: int| 0 <= i < nbytes implies out@[i] == #[trigger] spec_pack(
            ws,
            d as int,
        )[i] by {
            lemma_bits_of_words_range(ws, d as int, 8 * i, 8);
            lemma2_to64();
        }
        assert(out@ =~= spec_pack(ws, d as int));
    }
    out
}

/// Reads the words of `d` bits each that a byte string holds.
pub fn unpack_bits(bytes: &[u8], d: usize) -> (out: Vec<u16>)
    requires
        1 <= d <= 13,
        bytes@.len() <= 416,
        (bytes@.len() as int * 8) % (d as int) == 0,
    ensures
        words_as_ints(out@) == spec_unpack(bytes@, d as int),
        out@.len() == bytes@.len() as int * 8 / (d as int),
        words_fit(words_as_ints(out@), d as int),
{
    let nbits = bytes.len() * 8;
    let count = nbits / d;
    let mut out: Vec<u16> = Vec::new();
    let mut i: usize = 0;
    proof {
        lemma_fundamental_div_mod(nbits as int, d as int);
    }
    while i < count
        invariant
            1 <= d <= 13,
            nbits == bytes@.len() * 8,
            nbits <= 416 * 8,
            count == nbits / d,
            nbits == d * count,
            i <= count,
            out@.len() == i,
            forall|t: int| 0 <= t < i ==> out@[t] as int == bits_of_bytes(bytes@, d * t, d as int),
            forall|t: int| 0 <= t < i ==> 0 <= out@[t] as int && (out@[t] as int) < pow2(d as nat),
        decreases count - i,
    {
        assert(d * i + d <= d * count) by (nonlinear_arith)
            requires
                i + 1 <= count,
                d >= 1,
        ;
        let base = d * i;
        let mut v: u32 = 0;
        let mut t: usize = d;
        while t > 0
            invariant
                1 <= d <= 13,
                nbits == bytes@.len() * 8,
                base + d <= nbits,
                nbits <= 416 * 8,
                t <= d,
                v as int == bits_of_bytes(bytes@, base + t, d - t),
            decreases t,
        {
            t -= 1;
            let n = base + t;
            let byte = bytes[n / 8] as u16;
            let sh: u16 = (n % 8) as u16;
            let bitv: u16 = (byte >> sh) & 1;
            proof {
                lemma_shift_bit(byte, sh);
                lemma_bit_range(byte as int, sh as int);
                lemma_bits_of_bytes_range(bytes@, n + 1, d - t - 1);
                lemma2_to64();
                assert(pow2((d - t - 1) as nat) <= 4096) by {
                    if d - t - 1 < 12 {
                        vstd::arithmetic::power2::lemma_pow2_strictly_increases(
                            (d - t - 1) as nat,
                            12,
                        );
                    }
                }
            }
            v = 2 * v + bitv as u32;
        }
        proof {
            lemma_bits_of_bytes_range(bytes@, base as int, d as int);
            lemma2_to64();
            if d < 13 {
                vstd::arithmetic::power2::lemma_pow2_strictly_increases(d as nat, 13);
            }
        }
        out.push(v as u16);
        i += 1;
    }
    proof {
        assert(words_as_ints(out@) =~= spec_unpack(bytes@, d as int));
    }
    out
}


/// The bits of a window of a byte string are the bits of the whole string
/// at the window's offset.
pub proof fn lemma_bits_of_bytes_window(
    bytes: Seq<u8>,
    off: int,
    len: int,
    start: int,
    n: int,
)
    requires
        0 <= off,
        0 <= len,
        off + len <= bytes.len(),
        0 <= start,
        0 <= n,
        start + n <= 8 * len,
    ensures
        bits_of_bytes(bytes.subrange(off, off + len), start, n) == bits_of_bytes(
            bytes,
            8 * off + start,
            n,
        ),
    decreases n,
{
    if n > 0 {
        lemma_bits_of_bytes_window(bytes, off, len, start + 1, n - 1);
        assert(bytes.subrange(off, off + len)[start / 8] == bytes[off + start / 8]);
        assert((8 * off + start) / 8 == off + start / 8);
        assert((8 * off + start) % 8 == start % 8);
    }
}

/// Word number and bit number of bit `d * i + t` of a stream of `d`-bit
/// words.
pub proof fn lemma_word_bit_index(d: int, i: int, t: int)
    requires
        1 <= d,
        0 <= t < d,
    ensures
        (d * i + t) / d == i,
        (d * i + t) % d == t,
{
    assert(d * i + t == i * d + t) by (nonlinear_arith);
    lemma_fundamental_div_mod_converse(d * i + t, d, i, t);
}

/// Word number and bit number of a bit beyond the first `off` words.
pub proof fn lemma_word_bit_offset(d: int, off: int, start: int)
    requires
        1 <= d,
        0 <= start,
    ensures
        (d * off + start) / d == off + start / d,
        (d * off + start) % d == start % d,
        0 <= start / d,
{
    lemma_fundamental_div_mod(start, d);
    lemma_mod_pos_bound(start, d);
    let q = start / d;
    let r = start % d;
    assert(d * off + start == (off + q) * d + r) by (nonlinear_arith)
        requires
            start == d * q + r,
    ;
    lemma_fundamental_div_mod_converse(d * off + start, d, off + q, r);
    assert(0 <= q) by (nonlinear_arith)
        requires
            start == d * q + r,
            0 <= start,
            0 <= r < d,
            1 <= d,
    ;
}

/// The bits of a window of a word string are the bits of the whole string
/// at the window's offset.
pub proof fn lemma_bits_of_words_window(
    words: Seq<int>,
    d: int,
    off: int,
    len: int,
    start: int,
    n: int,
)
    requires
        1 <= d,
        0 <= off,
        0 <= len,
        off + len <= words.len(),
        0 <= start,
        0 <= n,
        start + n <= d * len,
    ensures
        bits_of_words(words.subrange(off, off + len), d, start, n) == bits_of_words(
            words,
            d,
            d * off + start,
            n,
        ),
    decreases n,
{
    if n > 0 {
        lemma_bits_of_words_window(words, d, off, len, start + 1, n - 1);
        lemma_word_bit_offset(d, off, start);
        lemma_multiply_divide_lt(start, d, len);
        assert(words.subrange(off, off + len)[start / d] == words[off + start / d]);
    }
}

/// `x` with its lowest `t` bits dropped.
pub open spec fn drop_bits(x: int, t: int) -> int
    decreases t,
{
    if t <= 0 {
        x
    } else {
        drop_bits(x / 2, t - 1)
    }
}

/// Bit `t` of `x` is the lowest bit of `x` without its lowest `t` bits, and
/// dropping one more bit halves.
proof fn lemma_drop_bits_step(x: int, t: int)
    requires
        0 <= t,
    ensures
        bit(x, t) == drop_bits(x, t) % 2,
        drop_bits(x, t + 1) == drop_bits(x, t) / 2,
    decreases t,
{
    assert(drop_bits(x, t + 1) == drop_bits(x / 2, t));
    if t > 0 {
        lemma_drop_bits_step(x / 2, t - 1);
    } else {
        assert(drop_bits(x / 2, 0) == x / 2);
    }
}

/// A number below `2^t` has nothing left once its lowest `t` bits are
/// dropped.
proof fn lemma_drop_bits_all(x: int, t: int)
    requires
        0 <= t,
        0 <= x < pow2(t as nat),
    ensures
        drop_bits(x, t) == 0,
    decreases t,
{
    lemma2_to64();
    if t > 0 {
        lemma_pow2_unfold(t as nat);
        lemma_drop_bits_all(x / 2, t - 1);
    }
}

/// The bits of word `i` from bit `t` on spell that word without its lowest
/// `t` bits.
proof fn lemma_bits_of_word(words: Seq<int>, d: int, i: int, t: int)
    requires
        1 <= d,
        0 <= i < words.len(),
        0 <= t <= d,
        0 <= words[i] < pow2(d as nat),
    ensures
        bits_of_words(words, d, d * i + t, d - t) == drop_bits(words[i], t),
    decreases d - t,
{
    if t == d {
        lemma_drop_bits_all(words[i], d);
    } else {
        lemma_bits_of_word(words, d, i, t + 1);
        lemma_word_bit_index(d, i, t);
        lemma_drop_bits_step(words[i], t);
        assert(d * i + t + 1 == d * i + (t + 1));
    }
}

/// Bit `r` of the number spelled by `n` bits of a word string is bit
/// `start + r` of that string.
proof fn lemma_bit_of_bits_of_words(words: Seq<int>, d: int, start: int, n: int, r: int)
    requires
        0 <= r < n,
    ensures
        bit(bits_of_words(words, d, start, n), r) == word_stream_bit(words, d, start + r),
    decreases r,
{
    let b0 = word_stream_bit(words, d, start);
    let rest = bits_of_words(words, d, start + 1, n - 1);
    lemma_bit_range(words[start / d], start % d);
    if r > 0 {
        lemma_bit_of_bits_of_words(words, d, start + 1, n - 1, r - 1);
        assert((b0 + 2 * rest) / 2 == rest);
        assert(start + 1 + (r - 1) == start + r);
    }
}

/// The bit stream of the packed bytes is the bit stream of the words.
proof fn lemma_pack_stream(words: Seq<int>, d: int, m: int)
    requires
        1 <= d,
        0 <= m < 8 * (words.len() as int * d / 8),
    ensures
        byte_stream_bit(spec_pack(words, d), m) == word_stream_bit(words, d, m),
{
    let k = m / 8;
    let r = m % 8;
    lemma_bits_of_words_range(words, d, 8 * k, 8);
    lemma2_to64();
    lemma_bit_of_bits_of_words(words, d, 8 * k, 8, r);
}

/// Reading `n` bits from the packed bytes gives what reading them from the
/// words gives.
proof fn lemma_bits_of_packed(words: Seq<int>, d: int, start: int, n: int)
    requires
        1 <= d,
        0 <= start,
        0 <= n,
        start + n <= 8 * (words.len() as int * d / 8),
    ensures
        bits_of_bytes(spec_pack(words, d), start, n) == bits_of_words(words, d, start, n),
    decreases n,
{
    if n > 0 {
        lemma_bits_of_packed(words, d, start + 1, n - 1);
        lemma_pack_stream(words, d, start);
    }
}

/// Unpacking undoes packing: words below `2^d` that fill whole bytes come
/// back unchanged.
pub proof fn lemma_unpack_pack(words: Seq<int>, d: int)
    requires
        1 <= d,
        (words.len() as int * d) % 8 == 0,
        words_fit(words, d),
    ensures
        spec_unpack(spec_pack(words, d), d) == words,
{
    let total = words.len() as int * d;
    let packed = spec_pack(words, d);
    assert(0 <= total) by (nonlinear_arith)
        requires
            total == words.len() as int * d,
            1 <= d,
    ;
    assert(packed.len() == total / 8);
    assert(packed.len() as int * 8 == total);
    assert(total == d * words.len() as int) by (nonlinear_arith)
        requires
            total == words.len() as int * d,
    ;
    lemma_fundamental_div_mod_converse(total, d, words.len() as int, 0);
    assert(spec_unpack(packed, d).len() == words.len());
    assert forall|i: int| 0 <= i < words.len() implies #[trigger] spec_unpack(packed, d)[i]
        == words[i] by {
        assert(d * i + d <= d * words.len() as int) by (nonlinear_arith)
            requires
                i + 1 <= words.len(),
                1 <= d,
        ;
        assert(0 <= d * i) by (nonlinear_arith)
            requires
                0 <= i,
                1 <= d,
        ;
        lemma_bits_of_packed(words, d, d * i, d);
        lemma_bits_of_word(words, d, i, 0);
    }
    assert(spec_unpack(packed, d) =~= words);
}


/// Dropping the lowest `t` bits divides by `2^t`.
pub proof fn lemma_drop_bits_div(x: int, t: int)
    requires
        0 <= x,
        0 <= t,
    ensures
        drop_bits(x, t) == x / (pow2(t as nat) as int),
    decreases t,
{
    lemma2_to64();
    if t > 0 {
        lemma_drop_bits_div(x / 2, t - 1);
        lemma_pow2_unfold(t as nat);
        lemma_pow2_pos((t - 1) as nat);
        let half = pow2((t - 1) as nat) as int;
        vstd::arithmetic::div_mod::lemma_div_denominator(x, 2, half);
        assert(2 * half == pow2(t as nat));
        assert(drop_bits(x, t) == drop_bits(x / 2, t - 1));
        assert((x / 2) / half == x / (2 * half));
    } else {
        assert(pow2(0) == 1);
        assert(x / 1 == x);
    }
}

/// The lowest bit and the rest: `y mod 2^n` is the lowest bit of `y` plus
/// twice `(y / 2) mod 2^(n - 1)`.
proof fn lemma_low_bits_step(y: int, n: int)
    requires
        0 <= y,
        1 <= n,
    ensures
        y % (pow2(n as nat) as int) == y % 2 + 2 * ((y / 2) % (pow2((n - 1) as nat) as int)),
{
    lemma_pow2_unfold(n as nat);
    lemma_pow2_pos((n - 1) as nat);
    vstd::arithmetic::div_mod::lemma_breakdown(y, 2, pow2((n - 1) as nat) as int);
}

/// `n` bits of a word string that lie inside word `i`, from its bit `t` on,
/// spell `(word / 2^t) mod 2^n`.
pub proof fn lemma_bits_of_words_in_word(words: Seq<int>, d: int, i: int, t: int, n: int)
    requires
        1 <= d,
        0 <= i < words.len(),
        0 <= t,
        0 <= n,
        t + n <= d,
        0 <= words[i],
    ensures
        bits_of_words(words, d, d * i + t, n) == (words[i] / (pow2(t as nat) as int)) % (pow2(
            n as nat,
        ) as int),
    decreases n,
{
    lemma2_to64();
    let w = words[i];
    lemma_pow2_pos(t as nat);
    if n > 0 {
        lemma_bits_of_words_in_word(words, d, i, t + 1, n - 1);
        lemma_word_bit_index(d, i, t);
        lemma_drop_bits_step(w, t);
        lemma_drop_bits_div(w, t);
        lemma_drop_bits_div(w, t + 1);
        let y = w / (pow2(t as nat) as int);
        vstd::arithmetic::div_mod::lemma_div_pos_is_pos(w, pow2(t as nat) as int);
        lemma_low_bits_step(y, n);
        assert(d * i + t + 1 == d * i + (t + 1));
    }
}

/// `n` bits of a byte string that lie inside byte `i`, from its bit `t` on,
/// spell `(byte / 2^t) mod 2^n`.
pub proof fn lemma_bits_of_bytes_in_byte(bytes: Seq<u8>, i: int, t: int, n: int)
    requires
        0 <= i < bytes.len(),
        0 <= t,
        0 <= n,
        t + n <= 8,
    ensures
        bits_of_bytes(bytes, 8 * i + t, n) == (bytes[i] as int / (pow2(t as nat) as int)) % (pow2(
            n as nat,
        ) as int),
    decreases n,
{
    lemma2_to64();
    let w = bytes[i] as int;
    lemma_pow2_pos(t as nat);
    if n > 0 {
        lemma_bits_of_bytes_in_byte(bytes, i, t + 1, n - 1);
        lemma_drop_bits_step(w, t);
        lemma_drop_bits_div(w, t);
        lemma_drop_bits_div(w, t + 1);
        let y = w / (pow2(t as nat) as int);
        vstd::arithmetic::div_mod::lemma_div_pos_is_pos(w, pow2(t as nat) as int);
        lemma_low_bits_step(y, n);
        assert((8 * i + t) / 8 == i && (8 * i + t) % 8 == t);
        assert(8 * i + t + 1 == 8 * i + (t + 1));
    }
}

/// A run of bits of a word string cut in two: the first `a` bits plus
/// `2^a` times the rest.
pub proof fn lemma_bits_of_words_split(words: Seq<int>, d: int, start: int, a: int, b: int)
    requires
        0 <= a,
        0 <= b,
    ensures
        bits_of_words(words, d, start, a + b) == bits_of_words(words, d, start, a) + pow2(a as nat)
            * bits_of_words(words, d, start + a, b),
    decreases a,
{
    lemma2_to64();
    let rest = bits_of_words(words, d, start + a, b);
    if a > 0 {
        lemma_bits_of_words_split(words, d, start + 1, a - 1, b);
        lemma_pow2_unfold(a as nat);
        assert(start + 1 + (a - 1) == start + a);
        assert(pow2(a as nat) * rest == 2 * (pow2((a - 1) as nat) * rest)) by (nonlinear_arith)
            requires
                pow2(a as nat) == 2 * pow2((a - 1) as nat),
        ;
    } else {
        assert(pow2(0) * rest == rest) by (nonlinear_arith)
            requires
                pow2(0) == 1,
        ;
    }
}

/// A run of bits of a byte string cut in two: the first `a` bits plus
/// `2^a` times the rest.
pub proof fn lemma_bits_of_bytes_split(bytes: Seq<u8>, start: int, a: int, b: int)
    requires
        0 <= a,
        0 <= b,
    ensures
        bits_of_bytes(bytes, start, a + b) == bits_of_bytes(bytes, start, a) + pow2(a as nat)
            * bits_of_bytes(bytes, start + a, b),
    decreases a,
{
    lemma2_to64();
    let rest = bits_of_bytes(bytes, start + a, b);
    if a > 0 {
        lemma_bits_of_bytes_split(bytes, start + 1, a - 1, b);
        lemma_pow2_unfold(a as nat);
        assert(start + 1 + (a - 1) == start + a);
        assert(pow2(a as nat) * rest == 2 * (pow2((a - 1) as nat) * rest)) by (nonlinear_arith)
            requires
                pow2(a as nat) == 2 * pow2((a - 1) as nat),
        ;
    } else {
        assert(pow2(0) * rest == rest) by (nonlinear_arith)
            requires
                pow2(0) == 1,
        ;
    }
}


/// `n` bits inside word `i` from its bit `t` on, with the two powers of two
/// named: `(word / two_t) mod two_n`.
pub proof fn lemma_word_field(
    words: Seq<int>,
    d: int,
    i: int,
    t: int,
    n: int,
    two_t: int,
    two_n: int,
)
    requires
        1 <= d,
        0 <= i < words.len(),
        0 <= t,
        0 <= n,
        t + n <= d,
        0 <= words[i],
        two_t == pow2(t as nat),
        two_n == pow2(n as nat),
    ensures
        bits_of_words(words, d, d * i + t, n) == (words[i] / two_t) % two_n,
{
    lemma_bits_of_words_in_word(words, d, i, t, n);
}

/// `n` bits inside byte `i` from its bit `t` on, with the two powers of two
/// named: `(byte / two_t) mod two_n`.
pub proof fn lemma_byte_field(bytes: Seq<u8>, i: int, t: int, n: int, two_t: int, two_n: int)
    requires
        0 <= i < bytes.len(),
        0 <= t,
        0 <= n,
        t + n <= 8,
        two_t == pow2(t as nat),
        two_n == pow2(n as nat),
    ensures
        bits_of_bytes(bytes, 8 * i + t, n) == (bytes[i] as int / two_t) % two_n,
{
    lemma_bits_of_bytes_in_byte(bytes, i, t, n);
}

/// A run of bits of a word string cut in two, with the power of two named.
pub proof fn lemma_words_cut(words: Seq<int>, d: int, start: int, a: int, b: int, two_a: int)
    requires
        0 <= a,
        0 <= b,
        two_a == pow2(a as nat),
    ensures
        bits_of_words(words, d, start, a + b) == bits_of_words(words, d, start, a) + two_a
            * bits_of_words(words, d, start + a, b),
{
    lemma_bits_of_words_split(words, d, start, a, b);
}

/// A run of bits of a byte string cut in two, with the power of two named.
pub proof fn lemma_bytes_cut(bytes: Seq<u8>, start: int, a: int, b: int, two_a: int)
    requires
        0 <= a,
        0 <= b,
        two_a == pow2(a as nat),
    ensures
        bits_of_bytes(bytes, start, a + b) == bits_of_bytes(bytes, start, a) + two_a
            * bits_of_bytes(bytes, start + a, b),
{
    lemma_bits_of_bytes_split(bytes, start, a, b);
}

} // verus!
