use rusty_kyber::kem;
use rusty_kyber::params;
use rusty_kyber::kyber1024;
use rusty_kyber::kyber512;
use rusty_kyber::kyber768;

#[test]
fn kyber512_constants() {
    assert_eq!(kyber512::K, 2);
    assert_eq!(kyber512::ETA1, 3);
    assert_eq!(kyber512::ETA2, 2);
    assert_eq!(kyber512::DU, 10);
    assert_eq!(kyber512::DV, 4);
    assert_eq!(kyber512::POLY_BYTES, 416);
    assert_eq!(kyber512::POLY_VEC_BYTES, 832);
    assert_eq!(kyber512::POLY_COMPRESSED_BYTES, 128);
    assert_eq!(kyber512::POLY_VEC_COMPRESSED_BYTES, 640);
    assert_eq!(kyber512::PUBLIC_KEY_BYTES, 864);
    assert_eq!(kyber512::SECRET_KEY_BYTES, 1760);
    assert_eq!(kyber512::CIPHERTEXT_BYTES, 768);
    assert_eq!(kyber512::SHARED_SECRET_BYTES, 32);
    assert_eq!(kyber512::params(), params::kyber512());
}

#[test]
fn kyber512_round_trip() {
    let (pk, sk) = kyber512::keypair(&[1u8; 32], &[2u8; 32]).unwrap();
    let (ct, ss) = kyber512::encaps(&pk, &[3u8; 32]).unwrap();
    let ss2 = kyber512::decaps(&sk, &ct);
    assert_eq!(ss.as_bytes(), ss2.as_bytes());
    assert_eq!(pk.as_bytes().len(), 864);
    assert_eq!(sk.as_bytes().len(), 1760);
    assert_eq!(ct.as_bytes().len(), 768);
    assert_eq!(ss.as_bytes().len(), 32);
}

#[test]
fn kyber512_agrees_with_the_generic_functions() {
    let p = params::kyber512();
    let (pk, sk) = kyber512::keypair(&[4u8; 32], &[5u8; 32]).unwrap();
    let (gpk, gsk) = kem::keygen(&p, &[4u8; 32], &[5u8; 32]).unwrap();
    assert_eq!(pk.as_bytes(), &gpk[..]);
    assert_eq!(sk.as_bytes(), &gsk[..]);
    let (ct, ss) = kyber512::encaps(&pk, &[6u8; 32]).unwrap();
    let (gct, gss) = kem::encaps(&p, &gpk, &[6u8; 32]).unwrap();
    assert_eq!(ct.as_bytes(), &gct[..]);
    assert_eq!(ss.as_bytes(), &gss[..]);
}

#[test]
fn kyber512_keys_can_be_wiped() {
    let (_pk, mut sk) = kyber512::keypair(&[7u8; 32], &[8u8; 32]).unwrap();
    assert!(sk.as_bytes().iter().any(|&b| b != 0));
    sk.zeroize();
    assert_eq!(sk.as_bytes().len(), 1760);
    assert!(sk.as_bytes().iter().all(|&b| b == 0));
    let mut ss = kyber512::SharedSecret::from([0xabu8; 32]);
    ss.zeroize();
    assert_eq!(ss.as_bytes(), &[0u8; 32][..]);
}

#[test]
fn kyber512_conversions() {
    let (pk, sk) = kyber512::keypair(&[7u8; 32], &[8u8; 32]).unwrap();
    let (ct, ss) = kyber512::encaps(&pk, &[9u8; 32]).unwrap();
    let raw_pk: [u8; 864] = pk.into();
    assert_eq!(raw_pk, pk.to_bytes());
    let raw_ss: [u8; 32] = ss.into();
    assert_eq!(raw_ss, ss.to_bytes());
    let pk2 = kyber512::PublicKey::from(pk.to_bytes());
    let sk2 = kyber512::SecretKey::from(sk.to_bytes());
    let ct2 = kyber512::Ciphertext::from(ct.to_bytes());
    let ss2 = kyber512::SharedSecret::from(ss.to_bytes());
    assert_eq!(pk2.as_bytes(), pk.as_bytes());
    assert_eq!(sk2.as_bytes(), sk.as_bytes());
    assert_eq!(ct2.as_bytes(), ct.as_bytes());
    assert_eq!(ss2.as_bytes(), ss.as_bytes());
    assert_eq!(kyber512::decaps(&sk2, &ct2).as_bytes(), ss.as_bytes());
    let mut raw = ct.to_bytes();
    raw[767] ^= 0x80;
    let bad = kyber512::Ciphertext::from(raw);
    assert_ne!(kyber512::decaps(&sk, &bad).as_bytes(), ss.as_bytes());
}

#[test]
fn kyber768_constants() {
    assert_eq!(kyber768::K, 3);
    assert_eq!(kyber768::ETA1, 2);
    assert_eq!(kyber768::ETA2, 2);
    assert_eq!(kyber768::DU, 10);
    assert_eq!(kyber768::DV, 4);
    assert_eq!(kyber768::POLY_BYTES, 416);
    assert_eq!(kyber768::POLY_VEC_BYTES, 1248);
    assert_eq!(kyber768::POLY_COMPRESSED_BYTES, 128);
    assert_eq!(kyber768::POLY_VEC_COMPRESSED_BYTES, 960);
    assert_eq!(kyber768::PUBLIC_KEY_BYTES, 1280);
    assert_eq!(kyber768::SECRET_KEY_BYTES, 2592);
    assert_eq!(kyber768::CIPHERTEXT_BYTES, 1088);
    assert_eq!(kyber768::SHARED_SECRET_BYTES, 32);
    assert_eq!(kyber768::params(), params::kyber768());
}

#[test]
fn kyber768_round_trip() {
    let (pk, sk) = kyber768::keypair(&[1u8; 32], &[2u8; 32]).unwrap();
    let (ct, ss) = kyber768::encaps(&pk, &[3u8; 32]).unwrap();
    let ss2 = kyber768::decaps(&sk, &ct);
    assert_eq!(ss.as_bytes(), ss2.as_bytes());
    assert_eq!(pk.as_bytes().len(), 1280);
    assert_eq!(sk.as_bytes().len(), 2592);
    assert_eq!(ct.as_bytes().len(), 1088);
    assert_eq!(ss.as_bytes().len(), 32);
}

#[test]
fn kyber768_agrees_with_the_generic_functions() {
    let p = params::kyber768();
    let (pk, sk) = kyber768::keypair(&[4u8; 32], &[5u8; 32]).unwrap();
    let (gpk, gsk) = kem::keygen(&p, &[4u8; 32], &[5u8; 32]).unwrap();
    assert_eq!(pk.as_bytes(), &gpk[..]);
    assert_eq!(sk.as_bytes(), &gsk[..]);
    let (ct, ss) = kyber768::encaps(&pk, &[6u8; 32]).unwrap();
    let (gct, gss) = kem::encaps(&p, &gpk, &[6u8; 32]).unwrap();
    assert_eq!(ct.as_bytes(), &gct[..]);
    assert_eq!(ss.as_bytes(), &gss[..]);
}

#[test]
fn kyber768_keys_can_be_wiped() {
    let (_pk, mut sk) = kyber768::keypair(&[7u8; 32], &[8u8; 32]).unwrap();
    assert!(sk.as_bytes().iter().any(|&b| b != 0));
    sk.zeroize();
    assert_eq!(sk.as_bytes().len(), 2592);
    assert!(sk.as_bytes().iter().all(|&b| b == 0));
    let mut ss = kyber768::SharedSecret::from([0xabu8; 32]);
    ss.zeroize();
    assert_eq!(ss.as_bytes(), &[0u8; 32][..]);
}

#[test]
fn kyber768_conversions() {
    let (pk, sk) = kyber768::keypair(&[7u8; 32], &[8u8; 32]).unwrap();
    let (ct, ss) = kyber768::encaps(&pk, &[9u8; 32]).unwrap();
    let raw_pk: [u8; 1280] = pk.into();
    assert_eq!(raw_pk, pk.to_bytes());
    let raw_ss: [u8; 32] = ss.into();
    assert_eq!(raw_ss, ss.to_bytes());
    let pk2 = kyber768::PublicKey::from(pk.to_bytes());
    let sk2 = kyber768::SecretKey::from(sk.to_bytes());
    let ct2 = kyber768::Ciphertext::from(ct.to_bytes());
    let ss2 = kyber768::SharedSecret::from(ss.to_bytes());
    assert_eq!(pk2.as_bytes(), pk.as_bytes());
    assert_eq!(sk2.as_bytes(), sk.as_bytes());
    assert_eq!(ct2.as_bytes(), ct.as_bytes());
    assert_eq!(ss2.as_bytes(), ss.as_bytes());
    assert_eq!(kyber768::decaps(&sk2, &ct2).as_bytes(), ss.as_bytes());
    let mut raw = ct.to_bytes();
    raw[1087] ^= 0x80;
    let bad = kyber768::Ciphertext::from(raw);
    assert_ne!(kyber768::decaps(&sk, &bad).as_bytes(), ss.as_bytes());
}

#[test]
fn kyber1024_constants() {
    assert_eq!(kyber1024::K, 4);
    assert_eq!(kyber1024::ETA1, 2);
    assert_eq!(kyber1024::ETA2, 2);
    assert_eq!(kyber1024::DU, 11);
    assert_eq!(kyber1024::DV, 5);
    assert_eq!(kyber1024::POLY_BYTES, 416);
    assert_eq!(kyber1024::POLY_VEC_BYTES, 1664);
    assert_eq!(kyber1024::POLY_COMPRESSED_BYTES, 160);
    assert_eq!(kyber1024::POLY_VEC_COMPRESSED_BYTES, 1408);
    assert_eq!(kyber1024::PUBLIC_KEY_BYTES, 1696);
    assert_eq!(kyber1024::SECRET_KEY_BYTES, 3424);
    assert_eq!(kyber1024::CIPHERTEXT_BYTES, 1568);
    assert_eq!(kyber1024::SHARED_SECRET_BYTES, 32);
    assert_eq!(kyber1024::params(), params::kyber1024());
}

#[test]
fn kyber1024_round_trip() {
    let (pk, sk) = kyber1024::keypair(&[1u8; 32], &[2u8; 32]).unwrap();
    let (ct, ss) = kyber1024::encaps(&pk, &[3u8; 32]).unwrap();
    let ss2 = kyber1024::decaps(&sk, &ct);
    assert_eq!(ss.as_bytes(), ss2.as_bytes());
    assert_eq!(pk.as_bytes().len(), 1696);
    assert_eq!(sk.as_bytes().len(), 3424);
    assert_eq!(ct.as_bytes().len(), 1568);
    assert_eq!(ss.as_bytes().len(), 32);
}

#[test]
fn kyber1024_agrees_with_the_generic_functions() {
    let p = params::kyber1024();
    let (pk, sk) = kyber1024::keypair(&[4u8; 32], &[5u8; 32]).unwrap();
    let (gpk, gsk) = kem::keygen(&p, &[4u8; 32], &[5u8; 32]).unwrap();
    assert_eq!(pk.as_bytes(), &gpk[..]);
    assert_eq!(sk.as_bytes(), &gsk[..]);
    let (ct, ss) = kyber1024::encaps(&pk, &[6u8; 32]).unwrap();
    let (gct, gss) = kem::encaps(&p, &gpk, &[6u8; 32]).unwrap();
    assert_eq!(ct.as_bytes(), &gct[..]);
    assert_eq!(ss.as_bytes(), &gss[..]);
}

#[test]
fn kyber1024_keys_can_be_wiped() {
    let (_pk, mut sk) = kyber1024::keypair(&[7u8; 32], &[8u8; 32]).unwrap();
    assert!(sk.as_bytes().iter().any(|&b| b != 0));
    sk.zeroize();
    assert_eq!(sk.as_bytes().len(), 3424);
    assert!(sk.as_bytes().iter().all(|&b| b == 0));
    let mut ss = kyber1024::SharedSecret::from([0xabu8; 32]);
    ss.zeroize();
    assert_eq!(ss.as_bytes(), &[0u8; 32][..]);
}

#[test]
fn kyber1024_conversions() {
    let (pk, sk) = kyber1024::keypair(&[7u8; 32], &[8u8; 32]).unwrap();
    let (ct, ss) = kyber1024::encaps(&pk, &[9u8; 32]).unwrap();
    let raw_pk: [u8; 1696] = pk.into();
    assert_eq!(raw_pk, pk.to_bytes());
    let raw_ss: [u8; 32] = ss.into();
    assert_eq!(raw_ss, ss.to_bytes());
    let pk2 = kyber1024::PublicKey::from(pk.to_bytes());
    let sk2 = kyber1024::SecretKey::from(sk.to_bytes());
    let ct2 = kyber1024::Ciphertext::from(ct.to_bytes());
    let ss2 = kyber1024::SharedSecret::from(ss.to_bytes());
    assert_eq!(pk2.as_bytes(), pk.as_bytes());
    assert_eq!(sk2.as_bytes(), sk.as_bytes());
    assert_eq!(ct2.as_bytes(), ct.as_bytes());
    assert_eq!(ss2.as_bytes(), ss.as_bytes());
    assert_eq!(kyber1024::decaps(&sk2, &ct2).as_bytes(), ss.as_bytes());
    let mut raw = ct.to_bytes();
    raw[1567] ^= 0x80;
    let bad = kyber1024::Ciphertext::from(raw);
    assert_ne!(kyber1024::decaps(&sk, &bad).as_bytes(), ss.as_bytes());
}
