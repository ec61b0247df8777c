use rusty_kyber::poly::{Domain, Poly};
use rusty_kyber::polyvec::{
    dot, mat_vec_mul, ntt_vec, polyvec_compress, polyvec_decompress, polyvec_from_bytes,
    polyvec_to_bytes, sample_matrix_entry, sample_noise, sample_noise_vec, wipe_polys,
};
use rusty_kyber::hash::{prf, xof};
use rusty_kyber::utils::{cbd, sample_ntt};

fn pattern(len: usize, step: usize, shift: usize) -> Vec<u8> {
    (0..len).map(|i| ((i * step + shift) % 256) as u8).collect()
}

#[test]
fn cbd_of_zero_bytes_is_zero() {
    let mut p = Poly::new();
    p.coeffs[5] = 77;
    p.domain = Domain::Evaluation;
    cbd(&[0u8; 128], 2, &mut p);
    assert!(p.coeffs.iter().all(|&c| c == 0));
    assert_eq!(p.domain, Domain::Coefficient);
    cbd(&[0xffu8; 192], 3, &mut p);
    assert!(p.coeffs.iter().all(|&c| c == 0));
}

#[test]
fn cbd_counts_bits_in_groups() {
    let mut buf = [0u8; 128];
    buf[0] = 0b0000_0011;
    buf[1] = 0b1100_0000;
    buf[2] = 0b0001_0110;
    let mut p = Poly::new();
    cbd(&buf, 2, &mut p);
    assert_eq!(p.coeffs[0], 2);
    assert_eq!(p.coeffs[1], 0);
    assert_eq!(p.coeffs[3], 3327);
    assert_eq!(p.coeffs[4], 0);
    assert_eq!(p.coeffs[5], 1);
    let mut wide = [0u8; 192];
    wide[0] = 0b0011_1111;
    wide[1] = 0b0000_0111;
    wide[2] = 0b1110_0000;
    cbd(&wide, 3, &mut p);
    assert_eq!(p.coeffs[0], 0);
    assert_eq!(p.coeffs[1], 3328);
    assert_eq!(p.coeffs[2], 0);
    assert_eq!(p.coeffs[3], 3326);
}

#[test]
fn cbd_known_values() {
    let mut p = Poly::new();
    cbd(&pattern(128, 73, 5), 2, &mut p);
    let head: [i16; 16] = [0, 0, 3328, 3328, 1, 0, 0, 3328, 0, 1, 1, 1, 1, 1, 3328, 0];
    let tail: [i16; 4] = [2, 0, 3327, 2];
    assert_eq!(&p.coeffs[..16], &head[..]);
    assert_eq!(&p.coeffs[252..], &tail[..]);
    cbd(&pattern(192, 29, 200), 3, &mut p);
    let head3: [i16; 16] = [3328, 2, 0, 0, 1, 3327, 1, 1, 0, 1, 0, 3328, 1, 0, 3328, 1];
    let tail3: [i16; 4] = [3328, 3326, 3328, 3328];
    assert_eq!(&p.coeffs[..16], &head3[..]);
    assert_eq!(&p.coeffs[252..], &tail3[..]);
    for &c in p.coeffs.iter() {
        assert!(c <= 3 || c >= 3326);
    }
}

#[test]
fn sample_ntt_accepts_candidates_below_q() {
    let stream: [u8; 15] = [0, 0, 0, 255, 255, 255, 1, 208, 0, 0, 13, 208, 1, 13, 0];
    let mut p = Poly::new();
    p.coeffs[200] = 42;
    let filled = sample_ntt(&stream, &mut p);
    let expected: [i16; 7] = [0, 0, 1, 13, 3328, 3328, 0];
    assert_eq!(filled, 7);
    assert_eq!(&p.coeffs[..7], &expected[..]);
    assert_eq!(p.coeffs[7], 0);
    assert_eq!(p.coeffs[200], 42);
}

#[test]
fn sample_ntt_rejects_the_modulus_itself() {
    let mut p = Poly::new();
    assert_eq!(sample_ntt(&[0x01, 0x0d, 0x00], &mut p), 1);
    assert_eq!(p.coeffs[0], 0);
    assert_eq!(sample_ntt(&[0x00, 0x1d, 0xd0], &mut p), 1);
    assert_eq!(p.coeffs[0], 3328);
    assert_eq!(sample_ntt(&[0xff, 0xff], &mut p), 0);
    assert_eq!(sample_ntt(&[], &mut p), 0);
}

#[test]
fn sample_ntt_stops_at_256_coefficients() {
    let mut stream = vec![0u8; 3 * 200];
    for g in 0..200 {
        stream[3 * g] = g as u8;
    }
    let mut p = Poly::new();
    assert_eq!(sample_ntt(&stream, &mut p), 256);
    for g in 0..128 {
        assert_eq!(p.coeffs[2 * g], g as i16);
        assert_eq!(p.coeffs[2 * g + 1], 0);
    }
    let mut odd = vec![0u8; 3 * 128];
    odd[1] = 0xff;
    odd[2] = 0xff;
    odd[3 * 127 + 2] = 0x01;
    let mut q = Poly::new();
    assert_eq!(sample_ntt(&odd, &mut q), 254);
    assert_eq!(q.coeffs[253], 16);
}

#[test]
fn matrix_entry_known_values() {
    let rho: Vec<u8> = (0..32).collect();
    let a = sample_matrix_entry(&rho, 0, 1).unwrap();
    let head: [i16; 8] = [2512, 1187, 75, 2259, 2131, 1317, 940, 936];
    let tail: [i16; 4] = [2850, 3236, 1269, 855];
    assert_eq!(&a.coeffs[..8], &head[..]);
    assert_eq!(&a.coeffs[252..], &tail[..]);
    let b = sample_matrix_entry(&rho, 1, 0).unwrap();
    let head_b: [i16; 8] = [797, 993, 161, 6, 2608, 2385, 2096, 2661];
    assert_eq!(&b.coeffs[..8], &head_b[..]);
    assert_ne!(a.coeffs, b.coeffs);
    assert!(a.coeffs.iter().all(|&c| 0 <= c && c < 3329));
}

#[test]
fn matrix_entry_is_sampled_from_the_stream_of_seed_and_indices() {
    let rho = [0x42u8; 32];
    let mut seed = rho.to_vec();
    seed.push(3);
    seed.push(1);
    let stream = xof(&seed, 672);
    let mut expected = Poly::new();
    assert_eq!(sample_ntt(&stream, &mut expected), 256);
    let entry = sample_matrix_entry(&rho, 3, 1).unwrap();
    assert_eq!(entry.coeffs, expected.coeffs);
    assert_eq!(entry.domain, Domain::Evaluation);
}

#[test]
fn noise_is_cbd_of_the_prf_output() {
    let seed = [0x11u8; 32];
    for eta in [2usize, 3] {
        let mut expected = Poly::new();
        cbd(&prf(&seed, 5, 64 * eta), eta, &mut expected);
        assert_eq!(sample_noise(&seed, 5, eta).coeffs, expected.coeffs);
    }
    let v = sample_noise_vec(&seed, 4, 3, 2);
    assert_eq!(v.len(), 3);
    assert_eq!(v[1].coeffs, sample_noise(&seed, 5, 2).coeffs);
    assert_eq!(v[2].coeffs, sample_noise(&seed, 6, 2).coeffs);
    assert_ne!(v[0].coeffs, v[1].coeffs);
}

#[test]
fn matrix_and_its_transpose_swap_the_index_bytes() {
    let rho = [0x33u8; 32];
    let mut unit = Poly::zero(Domain::Evaluation);
    for i in 0..256 {
        unit.coeffs[i] = 1;
    }
    let zero = Poly::zero(Domain::Evaluation);
    let v = vec![unit, zero];
    let plain = mat_vec_mul(&rho, 2, false, &v).unwrap();
    let transposed = mat_vec_mul(&rho, 2, true, &v).unwrap();
    assert_eq!(plain[0].coeffs, sample_matrix_entry(&rho, 0, 0).unwrap().coeffs);
    assert_eq!(plain[1].coeffs, sample_matrix_entry(&rho, 0, 1).unwrap().coeffs);
    assert_eq!(transposed[1].coeffs, sample_matrix_entry(&rho, 1, 0).unwrap().coeffs);
}

#[test]
fn wipe_polys_clears_every_polynomial() {
    let mut v = sample_noise_vec(&[0x21u8; 32], 0, 3, 3);
    assert!(v.iter().any(|p| p.coeffs.iter().any(|&c| c != 0)));
    wipe_polys(&mut v);
    assert_eq!(v.len(), 3);
    assert!(v.iter().all(|p| p.coeffs.iter().all(|&c| c == 0)));
}

#[test]
fn vectors_are_serialized_polynomial_by_polynomial() {
    let v = sample_noise_vec(&[0x22u8; 32], 0, 3, 2);
    let bytes = polyvec_to_bytes(&v);
    assert_eq!(bytes.len(), 3 * 416);
    assert_eq!(&bytes[416..832], &rusty_kyber::utils::poly_to_bytes(&v[1])[..]);
    let back = polyvec_from_bytes(&bytes, 3, Domain::Coefficient);
    for i in 0..3 {
        assert_eq!(back[i].coeffs, v[i].coeffs);
        assert_eq!(back[i].domain, Domain::Coefficient);
    }
    let packed = polyvec_compress(&v, 10);
    assert_eq!(packed.len(), 3 * 320);
    assert_eq!(&packed[640..], &rusty_kyber::utils::poly_compress(&v[2], 10)[..]);
    let unpacked = polyvec_decompress(&packed, 3, 10);
    assert_eq!(polyvec_compress(&unpacked, 10), packed);
}

#[test]
fn dot_sums_the_products() {
    let mut a0 = Poly::zero(Domain::Evaluation);
    let mut a1 = Poly::zero(Domain::Evaluation);
    let mut b0 = Poly::zero(Domain::Evaluation);
    let mut b1 = Poly::zero(Domain::Evaluation);
    a0.coeffs[0] = 3000;
    b0.coeffs[0] = 2000;
    a1.coeffs[0] = 5;
    b1.coeffs[0] = 7;
    a1.coeffs[9] = 3328;
    b1.coeffs[9] = 3328;
    let r = dot(&vec![a0, a1], &vec![b0, b1]);
    assert_eq!(r.coeffs[0], ((3000 * 2000 + 35) % 3329) as i16);
    assert_eq!(r.coeffs[9], 1);
    let mut c0 = Poly::new();
    c0.coeffs[0] = 3000;
    c0.coeffs[255] = 1;
    let t = ntt_vec(&vec![c0, Poly::new()]);
    let mut n0 = c0;
    n0.ntt();
    assert_eq!(t[0].coeffs, n0.coeffs);
    assert_eq!(t[0].domain, Domain::Evaluation);
    assert_eq!(t[1].coeffs, Poly::new().coeffs);
}
