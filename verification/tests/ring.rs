use rusty_kyber::ntt::{inv_ntt, ntt, INV_LAYERS};
use rusty_kyber::zetas::ZETAS;
use rusty_kyber::poly::{Domain, Poly};

fn poly_of(f: fn(usize) -> i16) -> Poly {
    let mut p = Poly::new();
    for i in 0..256 {
        p.coeffs[i] = f(i);
    }
    p
}

fn evaluations_of(f: fn(usize) -> i16) -> Poly {
    let mut p = poly_of(f);
    p.domain = Domain::Evaluation;
    p
}

fn quadratic(i: usize) -> i16 {
    ((i * i * 7 + 3) % 3329) as i16
}

fn rising(i: usize) -> i16 {
    ((5 * i + 1) % 3329) as i16
}

fn falling(i: usize) -> i16 {
    ((3329 - i) % 3329) as i16
}

fn negacyclic_product(a: &[i64], b: &[i64]) -> Vec<i64> {
    let n = a.len();
    let mut out = vec![0i64; n];
    for j in 0..n {
        for l in 0..n {
            let v = a[j] * b[l] % 3329;
            if j + l >= n {
                out[j + l - n] = (out[j + l - n] - v + 3329) % 3329;
            } else {
                out[j + l] = (out[j + l] + v) % 3329;
            }
        }
    }
    out
}

#[test]
fn new_poly_is_zero() {
    let p = Poly::new();
    assert!(p.coeffs.iter().all(|&c| c == 0));
    let d = Poly::default();
    assert!(d.coeffs.iter().all(|&c| c == 0));
}

#[test]
fn transforms_switch_the_domain_tag() {
    let mut p = poly_of(quadratic);
    assert_eq!(p.domain, Domain::Coefficient);
    p.ntt();
    assert_eq!(p.domain, Domain::Evaluation);
    let q = p;
    p.pointwise_mul(&q);
    assert_eq!(p.domain, Domain::Evaluation);
    p.add(&q);
    assert_eq!(p.domain, Domain::Evaluation);
    p.inv_ntt();
    assert_eq!(p.domain, Domain::Coefficient);
    assert_eq!(Poly::zero(Domain::Evaluation).domain, Domain::Evaluation);
    assert_eq!(Poly::zero(Domain::Evaluation).coeffs, Poly::new().coeffs);
    assert_eq!(Poly::default().domain, Domain::Coefficient);
}

#[test]
fn wipe_clears_every_coefficient() {
    let mut p = evaluations_of(quadratic);
    p.wipe();
    assert!(p.coeffs.iter().all(|&c| c == 0));
    assert_eq!(p.domain, Domain::Evaluation);
}

#[test]
fn add_is_coefficientwise_modulo_q() {
    let mut a = poly_of(rising);
    let b = poly_of(falling);
    a.add(&b);
    assert_eq!(a.coeffs[0], 1);
    assert_eq!(a.coeffs[1], 5);
    assert_eq!(a.coeffs[255], 1021);
    for i in 0..256 {
        assert_eq!(a.coeffs[i] as i64, (rising(i) as i64 + falling(i) as i64) % 3329);
    }
}

#[test]
fn sub_is_coefficientwise_modulo_q() {
    let mut a = poly_of(rising);
    let b = poly_of(falling);
    a.sub(&b);
    assert_eq!(a.coeffs[0], 1);
    assert_eq!(a.coeffs[1], 7);
    assert_eq!(a.coeffs[255], 1531);
    let mut z = Poly::new();
    let mut one = Poly::new();
    one.coeffs[3] = 1;
    z.sub(&one);
    assert_eq!(z.coeffs[3], 3328);
}

#[test]
fn pointwise_mul_is_coefficientwise_modulo_q() {
    let mut a = evaluations_of(rising);
    let b = evaluations_of(falling);
    a.pointwise_mul(&b);
    assert_eq!(a.coeffs[0], 0);
    assert_eq!(a.coeffs[1], 3323);
    assert_eq!(a.coeffs[200], 2869);
    assert_eq!(a.coeffs[255], 862);
}

#[test]
fn zeta_table_holds_powers_of_17_in_bit_reversed_order() {
    assert_eq!(ZETAS[0], 1);
    assert_eq!(ZETAS[1], 1729);
    assert_eq!(ZETAS[64], 17);
    assert_eq!(ZETAS[127], 2154);
    for k in 0..128usize {
        let mut e = 0u32;
        for bit in 0..7 {
            if k & (1 << bit) != 0 {
                e |= 1 << (6 - bit);
            }
        }
        let mut v: u64 = 1;
        for _ in 0..e {
            v = v * 17 % 3329;
        }
        assert_eq!(ZETAS[k] as u64, v);
    }
    assert_eq!((INV_LAYERS as i64 * 128) % 3329, 1);
}

#[test]
fn ntt_of_the_constant_one() {
    let mut p = Poly::new();
    p.coeffs[0] = 1;
    p.ntt();
    for i in 0..256 {
        assert_eq!(p.coeffs[i], if i % 2 == 0 { 1 } else { 0 });
    }
}

#[test]
fn ntt_first_layer_butterfly() {
    let mut c = [0i16; 256];
    c[128] = 1;
    ntt(&mut c);
    let expected_head: [i16; 8] = [1729, 0, 1729, 0, 1729, 0, 1729, 0];
    let expected_tail: [i16; 8] = [1600, 0, 1600, 0, 1600, 0, 1600, 0];
    assert_eq!(&c[..8], &expected_head[..]);
    assert_eq!(&c[248..], &expected_tail[..]);
}

#[test]
fn ntt_known_values() {
    let mut p = poly_of(quadratic);
    p.ntt();
    let head: [i16; 8] = [291, 590, 1874, 427, 659, 3232, 2625, 552];
    let tail: [i16; 8] = [102, 1352, 275, 220, 141, 2632, 17, 1867];
    assert_eq!(&p.coeffs[..8], &head[..]);
    assert_eq!(&p.coeffs[248..], &tail[..]);
    assert!(p.coeffs.iter().all(|&c| 0 <= c && c < 3329));
}

#[test]
fn inv_ntt_known_values() {
    let mut p = evaluations_of(quadratic);
    p.inv_ntt();
    let head: [i16; 8] = [1328, 3113, 470, 371, 177, 590, 2773, 1855];
    assert_eq!(&p.coeffs[..8], &head[..]);
}

#[test]
fn inv_ntt_undoes_ntt() {
    for f in [quadratic as fn(usize) -> i16, rising, falling] {
        let start = poly_of(f);
        let mut p = start;
        p.ntt();
        assert_ne!(p.coeffs, start.coeffs);
        p.inv_ntt();
        assert_eq!(p.coeffs, start.coeffs);
    }
    let mut c = [3328i16; 256];
    ntt(&mut c);
    inv_ntt(&mut c);
    assert_eq!(c, [3328i16; 256]);
}

#[test]
fn ntt_undoes_inv_ntt() {
    let start = evaluations_of(quadratic);
    let mut p = start;
    p.inv_ntt();
    p.ntt();
    assert_eq!(p.coeffs, start.coeffs);
}

#[test]
fn product_of_polynomials_in_x_squared_is_the_negacyclic_product() {
    let mut a = Poly::new();
    let mut b = Poly::new();
    for i in 0..128 {
        a.coeffs[2 * i] = ((17 * i + 5) % 3329) as i16;
        b.coeffs[2 * i] = ((1000 + 29 * i) % 3329) as i16;
    }
    let av: Vec<i64> = a.coeffs.iter().map(|&c| c as i64).collect();
    let bv: Vec<i64> = b.coeffs.iter().map(|&c| c as i64).collect();
    let expected = negacyclic_product(&av, &bv);
    a.ntt();
    b.ntt();
    a.pointwise_mul(&b);
    a.inv_ntt();
    for i in 0..256 {
        assert_eq!(a.coeffs[i] as i64, expected[i]);
    }
}

#[test]
fn product_multiplies_even_and_odd_parts_separately() {
    let mut a = poly_of(quadratic);
    let mut b = poly_of(rising);
    let mut expected = vec![0i64; 256];
    for parity in 0..2 {
        let ap: Vec<i64> = (0..128).map(|i| a.coeffs[2 * i + parity] as i64).collect();
        let bp: Vec<i64> = (0..128).map(|i| b.coeffs[2 * i + parity] as i64).collect();
        let cp = negacyclic_product(&ap, &bp);
        for i in 0..128 {
            expected[2 * i + parity] = cp[i];
        }
    }
    a.ntt();
    b.ntt();
    a.pointwise_mul(&b);
    a.inv_ntt();
    for i in 0..256 {
        assert_eq!(a.coeffs[i] as i64, expected[i]);
    }
}

#[test]
fn product_of_x_with_x_is_x() {
    let mut a = Poly::new();
    a.coeffs[1] = 1;
    let mut b = a;
    a.ntt();
    b.ntt();
    a.pointwise_mul(&b);
    a.inv_ntt();
    let mut x = Poly::new();
    x.coeffs[1] = 1;
    assert_eq!(a.coeffs, x.coeffs);
}

#[test]
fn product_wraps_around_with_a_sign() {
    let mut a = Poly::new();
    a.coeffs[2] = 1;
    let mut b = Poly::new();
    b.coeffs[254] = 1;
    a.ntt();
    b.ntt();
    a.pointwise_mul(&b);
    a.inv_ntt();
    assert_eq!(a.coeffs[0], 3328);
    assert!(a.coeffs[1..].iter().all(|&c| c == 0));
}
