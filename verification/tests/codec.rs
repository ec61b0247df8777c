use rusty_kyber::poly::{Domain, Poly};
use rusty_kyber::utils::{
    poly_compress, poly_decompress, poly_from_bytes, poly_from_msg, poly_frombytes_round,
    poly_to_bytes, poly_to_msg, poly_tobytes_round,
};
use rusty_kyber::bits::{pack_bits, unpack_bits};

fn spread(seed: usize) -> Poly {
    let mut p = Poly::new();
    for i in 0..256 {
        p.coeffs[i] = ((i * 13 + seed * 257 + i * i) % 3329) as i16;
    }
    p
}

fn distance(a: i16, b: i16) -> i64 {
    let u = (a as i64 - b as i64).rem_euclid(3329);
    u.min(3329 - u)
}

#[test]
fn pack_bits_lays_words_out_least_significant_bit_first() {
    assert_eq!(pack_bits(&[1, 0, 0, 0, 0, 0, 0, 0], 1), vec![0x01]);
    assert_eq!(pack_bits(&[0, 0, 0, 0, 0, 0, 0, 1], 1), vec![0x80]);
    assert_eq!(pack_bits(&[0xf, 0x1], 4), vec![0x1f]);
    assert_eq!(pack_bits(&[0x3ff, 0, 0, 0x201], 10), vec![0xff, 0x03, 0x00, 0x40, 0x80]);
    assert_eq!(pack_bits(&[0xffff, 0, 0xffff, 0, 0xffff, 0, 0xffff, 0], 5), vec![0x1f, 0x7c, 0xf0, 0xc1, 0x07]);
}

#[test]
fn unpack_bits_reads_words_back() {
    assert_eq!(unpack_bits(&[0x1f], 4), vec![0xf, 0x1]);
    assert_eq!(unpack_bits(&[0xff, 0x03, 0x00, 0x40, 0x80], 10), vec![0x3ff, 0, 0, 0x201]);
    assert_eq!(unpack_bits(&[0xa5], 1), vec![1, 0, 1, 0, 0, 1, 0, 1]);
    let words: Vec<u16> = (0..256).map(|i| (i * 31 % 2048) as u16).collect();
    for d in [11usize, 12, 13] {
        assert_eq!(unpack_bits(&pack_bits(&words, d), d), words);
    }
}

#[test]
fn tobytes_round_packs_thirteen_bits_per_coefficient() {
    assert_eq!(poly_tobytes_round(&[1, 2, 3, 4, 5, 6, 7, 8]), [1, 64, 0, 12, 0, 2, 80, 0, 12, 192, 1, 64, 0]);
    assert_eq!(poly_tobytes_round(&[3328, 0, 8191, 4096, 1, 3000, 2, 8000]), [0, 13, 0, 252, 127, 0, 24, 0, 112, 151, 0, 0, 250]);
    assert_eq!(poly_tobytes_round(&[0, 1, 0, 0, 0, 0, 0, 0])[1], 0x20);
    assert_eq!(poly_tobytes_round(&[0, 0, 0, 0, 0, 0, 0, 0x1000])[12], 0x80);
}

#[test]
fn frombytes_round_reads_thirteen_bits_per_coefficient() {
    assert_eq!(poly_frombytes_round(&[1, 64, 0, 12, 0, 2, 80, 0, 12, 192, 1, 64, 0]), [1, 2, 3, 4, 5, 6, 7, 8]);
    assert_eq!(poly_frombytes_round(&[0, 13, 0, 252, 127, 0, 24, 0, 112, 151, 0, 0, 250]), [3328, 0, 8191, 4096, 1, 3000, 2, 8000]);
    assert_eq!(poly_frombytes_round(&[0xff; 13]), [8191; 8]);
}

#[test]
fn serialized_polynomial_has_416_bytes_in_groups_of_13() {
    let mut p = Poly::new();
    for i in 0..8 {
        p.coeffs[8 + i] = (i + 1) as i16;
    }
    p.coeffs[255] = 3328;
    let bytes = poly_to_bytes(&p);
    assert_eq!(bytes.len(), 416);
    assert!(bytes[..13].iter().all(|&b| b == 0));
    assert_eq!(&bytes[13..26], &[1, 64, 0, 12, 0, 2, 80, 0, 12, 192, 1, 64, 0][..]);
    assert_eq!(bytes[415], 104);
    assert_eq!(bytes[414], 0);
}

#[test]
fn serialization_round_trip_is_exact() {
    for seed in 0..5 {
        let p = spread(seed);
        let bytes = poly_to_bytes(&p);
        let mut q = Poly::new();
        poly_from_bytes(&bytes, Domain::Coefficient, &mut q);
        assert_eq!(p.coeffs, q.coeffs);
    }
}

#[test]
fn from_bytes_reduces_values_modulo_q() {
    let mut p = Poly::new();
    poly_from_bytes(&[0xffu8; 416], Domain::Evaluation, &mut p);
    assert_eq!(p.domain, Domain::Evaluation);
    assert!(p.coeffs.iter().all(|&c| c == 8191 % 3329));
    let mut bytes = [0u8; 416];
    bytes[0] = 0x01;
    bytes[1] = 0x0d;
    poly_from_bytes(&bytes, Domain::Coefficient, &mut p);
    assert_eq!(p.domain, Domain::Coefficient);
    assert_eq!(p.coeffs[0], 0);
    assert!(p.coeffs[1..].iter().all(|&c| c == 0));
}

#[test]
fn compress_known_values() {
    let mut p = Poly::new();
    let xs: [i16; 8] = [0, 1, 104, 105, 1664, 1665, 3225, 3328];
    for i in 0..8 {
        p.coeffs[i] = xs[i];
    }
    assert_eq!(&poly_compress(&p, 4)[..4], &[0, 16, 136, 0][..]);
    assert_eq!(&poly_compress(&p, 10)[..10], &[0, 0, 0, 2, 8, 0, 2, 8, 62, 0][..]);
    assert_eq!(&poly_compress(&p, 11)[..11], &[0, 8, 0, 16, 130, 0, 64, 0, 2, 255, 255][..]);
    assert_eq!(&poly_compress(&p, 5)[..5], &[0, 132, 0, 225, 7][..]);
    assert_eq!(&poly_compress(&p, 1)[..1], &[48][..]);
}

#[test]
fn compressed_polynomial_has_32_bytes_per_bit() {
    let p = spread(3);
    for d in 1..=11usize {
        assert_eq!(poly_compress(&p, d).len(), 32 * d);
    }
}

#[test]
fn decompress_known_values() {
    let mut bytes = [0u8; 128];
    bytes[0] = 0x10;
    bytes[1] = 0x82;
    bytes[2] = 0xff;
    let mut p = Poly::new();
    poly_decompress(&bytes, 4, &mut p);
    assert_eq!(&p.coeffs[..6], &[0, 208, 416, 1665, 3121, 3121][..]);
    let mut wide = [0u8; 352];
    wide[0] = 0xff;
    wide[1] = 0x07;
    poly_decompress(&wide, 11, &mut p);
    assert_eq!(p.coeffs[0], 3327);
    assert_eq!(p.coeffs[1], 0);
}

#[test]
fn compression_error_is_within_the_quantization_bound() {
    for d in 1..=11usize {
        let bound = ((3329 + (1i64 << d)) / 2) / (1i64 << d);
        let mut worst = 0;
        for chunk in 0..14 {
            let mut p = Poly::new();
            for i in 0..256 {
                p.coeffs[i] = ((chunk * 256 + i) % 3329) as i16;
            }
            let bytes = poly_compress(&p, d);
            let mut q = Poly::new();
            poly_decompress(&bytes, d, &mut q);
            for i in 0..256 {
                let e = distance(p.coeffs[i], q.coeffs[i]);
                assert!(e <= bound);
                worst = worst.max(e);
            }
        }
        assert_eq!(worst, bound);
    }
}

#[test]
fn second_compression_changes_nothing() {
    for d in [1usize, 4, 5, 10, 11] {
        let p = spread(d);
        let first = poly_compress(&p, d);
        let mut q = Poly::new();
        poly_decompress(&first, d, &mut q);
        let second = poly_compress(&q, d);
        assert_eq!(first, second);
        let mut r = Poly::new();
        poly_decompress(&second, d, &mut r);
        assert_eq!(q.coeffs, r.coeffs);
    }
}

#[test]
fn message_bits_become_zero_or_half_q() {
    let mut msg = [0u8; 32];
    msg[0] = 0b0000_0101;
    msg[31] = 0x80;
    let p = poly_from_msg(&msg);
    assert_eq!(p.coeffs[0], 1665);
    assert_eq!(p.coeffs[1], 0);
    assert_eq!(p.coeffs[2], 1665);
    assert_eq!(p.coeffs[255], 1665);
    assert_eq!(p.coeffs.iter().filter(|&&c| c == 1665).count(), 3);
    assert_eq!(p.coeffs.iter().filter(|&&c| c == 0).count(), 253);
}

#[test]
fn message_decoding_rounds_to_the_nearer_value() {
    let mut p = Poly::new();
    let xs: [i16; 8] = [0, 832, 833, 1665, 2496, 2497, 3328, 1];
    for i in 0..8 {
        p.coeffs[i] = xs[i];
    }
    let msg = poly_to_msg(&p);
    assert_eq!(msg[0], 0b0001_1100);
    assert!(msg[1..].iter().all(|&b| b == 0));
}

#[test]
fn message_decoding_tolerates_noise_below_a_quarter_of_q() {
    let mut msg = [0u8; 32];
    for i in 0..32 {
        msg[i] = (i * 91 + 3) as u8;
    }
    for noise in [0i16, 1, 831, 3329 - 831, 3328] {
        let mut p = poly_from_msg(&msg);
        let mut e = Poly::new();
        for i in 0..256 {
            e.coeffs[i] = noise;
        }
        p.add(&e);
        assert_eq!(poly_to_msg(&p), msg);
    }
    let mut p = poly_from_msg(&[0xffu8; 32]);
    let mut e = Poly::new();
    e.coeffs[9] = 832;
    p.add(&e);
    let decoded = poly_to_msg(&p);
    assert_eq!(decoded[1], 0xff ^ 0x02);
    assert_eq!(decoded[0], 0xff);
}

#[test]
fn message_round_trip() {
    let mut msg = [0u8; 32];
    for i in 0..32 {
        msg[i] = (i * 37 + 11) as u8;
    }
    assert_eq!(poly_to_msg(&poly_from_msg(&msg)), msg);
}
