use rusty_kyber::decaps::indcpa_dec;
use rusty_kyber::encaps::indcpa_enc;
use rusty_kyber::hash::{g, h, kdf};
use rusty_kyber::kem::{decaps, encaps, keygen};
use rusty_kyber::keygen::indcpa_keypair;
use rusty_kyber::params::{kyber1024, kyber512, kyber768, ParamSet, N, POLY_BYTES, Q};

fn hex(bytes: &[u8]) -> String {
    bytes.iter().map(|b| format!("{:02x}", b)).collect()
}

fn levels() -> [ParamSet; 3] {
    [kyber512(), kyber768(), kyber1024()]
}

fn seed_of(tag: u8) -> [u8; 32] {
    let mut s = [0u8; 32];
    for i in 0..32 {
        s[i] = tag.wrapping_mul(31).wrapping_add((i as u8).wrapping_mul(7));
    }
    s
}

#[test]
fn parameter_sets() {
    assert_eq!(N, 256);
    assert_eq!(Q, 3329);
    assert_eq!(POLY_BYTES, 416);
    let p = kyber512();
    assert_eq!((p.k, p.eta1, p.eta2, p.du, p.dv), (2, 3, 2, 10, 4));
    assert_eq!((p.poly_vec_bytes(), p.public_key_bytes(), p.secret_key_bytes(), p.ciphertext_bytes()), (832, 864, 1760, 768));
    let p = kyber768();
    assert_eq!((p.k, p.eta1, p.eta2, p.du, p.dv), (3, 2, 2, 10, 4));
    assert_eq!((p.poly_vec_bytes(), p.public_key_bytes(), p.secret_key_bytes(), p.ciphertext_bytes()), (1248, 1280, 2592, 1088));
    let p = kyber1024();
    assert_eq!((p.k, p.eta1, p.eta2, p.du, p.dv), (4, 2, 2, 11, 5));
    assert_eq!((p.poly_vec_bytes(), p.public_key_bytes(), p.secret_key_bytes(), p.ciphertext_bytes()), (1664, 1696, 3424, 1568));
}

#[test]
fn key_and_ciphertext_lengths() {
    for p in levels() {
        let (pk, sk) = keygen(&p, &seed_of(1), &seed_of(2)).unwrap();
        assert_eq!(pk.len(), p.public_key_bytes());
        assert_eq!(sk.len(), p.secret_key_bytes());
        let (ct, ss) = encaps(&p, &pk, &seed_of(3)).unwrap();
        assert_eq!(ct.len(), p.ciphertext_bytes());
        assert_eq!(ss.len(), 32);
        let (cpk, csk) = indcpa_keypair(&p, &seed_of(1)).unwrap();
        assert_eq!(cpk.len(), p.public_key_bytes());
        assert_eq!(csk.len(), p.poly_vec_bytes());
    }
}

#[test]
fn secret_key_layout() {
    for p in levels() {
        let seed = seed_of(4);
        let z = seed_of(5);
        let (pk, sk) = keygen(&p, &seed, &z).unwrap();
        let (cpk, csk) = indcpa_keypair(&p, &seed).unwrap();
        assert_eq!(pk, cpk);
        let n = p.poly_vec_bytes();
        assert_eq!(&sk[..n], &csk[..]);
        assert_eq!(&sk[n..n + pk.len()], &pk[..]);
        assert_eq!(&sk[n + pk.len()..n + pk.len() + 32], &h(&pk)[..]);
        assert_eq!(&sk[n + pk.len() + 32..], &z[..]);
        assert_eq!(&pk[n..], &g(&seed)[..32]);
    }
}

#[test]
fn decapsulation_returns_the_encapsulated_secret() {
    for p in levels() {
        for tag in 0..6u8 {
            let (pk, sk) = keygen(&p, &seed_of(tag), &seed_of(tag + 50)).unwrap();
            let (ct, ss) = encaps(&p, &pk, &seed_of(tag + 100)).unwrap();
            assert_eq!(decaps(&p, &sk, &ct), ss);
        }
    }
}

#[test]
fn decryption_recovers_the_message() {
    for p in levels() {
        let (pk, sk) = indcpa_keypair(&p, &seed_of(9)).unwrap();
        for tag in 0..4u8 {
            let msg = seed_of(tag + 20);
            let ct = indcpa_enc(&p, &pk, &msg, &seed_of(tag + 30)).unwrap();
            assert_eq!(indcpa_dec(&p, &sk, &ct), msg);
        }
        let zero = indcpa_enc(&p, &pk, &[0u8; 32], &seed_of(1)).unwrap();
        assert_eq!(indcpa_dec(&p, &sk, &zero), [0u8; 32]);
        let ones = indcpa_enc(&p, &pk, &[0xffu8; 32], &seed_of(1)).unwrap();
        assert_eq!(indcpa_dec(&p, &sk, &ones), [0xffu8; 32]);
    }
}

#[test]
fn shared_secret_is_derived_from_pre_key_and_ciphertext() {
    for p in levels() {
        let (pk, _sk) = keygen(&p, &seed_of(11), &seed_of(12)).unwrap();
        let m = seed_of(13);
        let (ct, ss) = encaps(&p, &pk, &m).unwrap();
        let mut g_in = m.to_vec();
        g_in.extend_from_slice(&h(&pk));
        let g_out = g(&g_in);
        let mut coins = [0u8; 32];
        coins.copy_from_slice(&g_out[32..]);
        assert_eq!(indcpa_enc(&p, &pk, &m, &coins).unwrap(), ct);
        let mut kdf_in = g_out[..32].to_vec();
        kdf_in.extend_from_slice(&ct);
        assert_eq!(kdf(&kdf_in), ss);
    }
}

#[test]
fn tampered_ciphertext_gives_the_rejection_secret() {
    for p in levels() {
        let z = seed_of(22);
        let (pk, sk) = keygen(&p, &seed_of(21), &z).unwrap();
        let (ct, ss) = encaps(&p, &pk, &seed_of(23)).unwrap();
        for position in [0usize, 1, ct.len() / 2, ct.len() - 1] {
            let mut bad = ct.clone();
            bad[position] ^= 0x01;
            let got = decaps(&p, &sk, &bad);
            assert_ne!(got, ss);
            let mut kdf_in = z.to_vec();
            kdf_in.extend_from_slice(&bad);
            assert_eq!(got, kdf(&kdf_in));
        }
    }
}

#[test]
fn wrong_secret_key_gives_the_rejection_secret() {
    for p in levels() {
        let (pk, _sk) = keygen(&p, &seed_of(31), &seed_of(32)).unwrap();
        let z = seed_of(34);
        let (_pk2, sk2) = keygen(&p, &seed_of(33), &z).unwrap();
        let (ct, ss) = encaps(&p, &pk, &seed_of(35)).unwrap();
        let got = decaps(&p, &sk2, &ct);
        assert_ne!(got, ss);
        let mut kdf_in = z.to_vec();
        kdf_in.extend_from_slice(&ct);
        assert_eq!(got, kdf(&kdf_in));
    }
}

#[test]
fn same_seeds_give_the_same_bytes() {
    for p in levels() {
        let a = keygen(&p, &seed_of(41), &seed_of(42)).unwrap();
        let b = keygen(&p, &seed_of(41), &seed_of(42)).unwrap();
        assert_eq!(a, b);
        let c = keygen(&p, &seed_of(43), &seed_of(42)).unwrap();
        assert_ne!(a.0, c.0);
        let x = encaps(&p, &a.0, &seed_of(44)).unwrap();
        let y = encaps(&p, &a.0, &seed_of(44)).unwrap();
        assert_eq!(x, y);
        let w = encaps(&p, &a.0, &seed_of(45)).unwrap();
        assert_ne!(x.0, w.0);
        assert_ne!(x.1, w.1);
    }
}

#[test]
fn malformed_key_bytes_are_still_decapsulated() {
    for p in levels() {
        let sk = vec![0xffu8; p.secret_key_bytes()];
        let ct = vec![0xffu8; p.ciphertext_bytes()];
        let ss = decaps(&p, &sk, &ct);
        let again = decaps(&p, &sk, &ct);
        assert_eq!(ss, again);
        let pk = vec![0xffu8; p.public_key_bytes()];
        let a = encaps(&p, &pk, &seed_of(1));
        let b = encaps(&p, &pk, &seed_of(1));
        assert_eq!(a, b);
    }
}

#[test]
fn known_answer_kyber512() {
    let p = kyber512();
    let (pk, sk) = keygen(&p, &[7u8; 32], &[9u8; 32]).unwrap();
    assert_eq!(&pk[..8], &[174, 7, 83, 52, 31, 89, 66, 164][..]);
    assert_eq!(hex(&h(&pk)), "af50f61f7bd46803e3de2a4687ebe922307cc5be8b1aae8732e08bf618eb950a");
    assert_eq!(hex(&h(&sk)), "63c1e58f47748a0e763f241e93ea2900274e85fa3edfde8dee58ad7b834eeb3f");
    let (ct, ss) = encaps(&p, &pk, &[0x5au8; 32]).unwrap();
    assert_eq!(hex(&h(&ct)), "d6da960f4b5a452683739d3a28e97d33b64479e093704c33082da3a92fc095cc");
    assert_eq!(hex(&ss), "58ded9c1d5269db1a8075388c1e81ff892b3c3bcf839ad643bb67cbc8e9ed6da");
    assert_eq!(hex(&decaps(&p, &sk, &ct)), "58ded9c1d5269db1a8075388c1e81ff892b3c3bcf839ad643bb67cbc8e9ed6da");
    let mut bad = ct.clone();
    bad[0] ^= 0x01;
    assert_eq!(hex(&decaps(&p, &sk, &bad)), "1612072e1a314787cac26b11c781a1630752f03c76486cfbeb626ea0de4cd98a");
    let c = indcpa_enc(&p, &pk, &[0x5au8; 32], &[3u8; 32]).unwrap();
    assert_eq!(hex(&h(&c)), "8da48831006042ead81eaa512022a210e441362f33d3db816bf623b8cebce1dd");
}

#[test]
fn known_answer_kyber768() {
    let p = kyber768();
    let (pk, sk) = keygen(&p, &[7u8; 32], &[9u8; 32]).unwrap();
    assert_eq!(&pk[..8], &[66, 162, 134, 236, 42, 26, 97, 83][..]);
    assert_eq!(hex(&h(&pk)), "f50db153a998b35ce0779585d92c18084fb5ec11b7e4453c24f15d75f6541c08");
    assert_eq!(hex(&h(&sk)), "b89f0eb91636a25fb5b657eb69bd8f31134cb7affd24e2783c14e143d8d72313");
    let (ct, ss) = encaps(&p, &pk, &[0x5au8; 32]).unwrap();
    assert_eq!(hex(&h(&ct)), "8e88bf8996749cc7969b9d51b9d14583d88e28b328a649b739ad72daf02b3097");
    assert_eq!(hex(&ss), "1d40661f286c8229dfe3276ec41446529cb55c75dbe912d762d980318c8b8915");
    assert_eq!(hex(&decaps(&p, &sk, &ct)), "1d40661f286c8229dfe3276ec41446529cb55c75dbe912d762d980318c8b8915");
    let mut bad = ct.clone();
    bad[0] ^= 0x01;
    assert_eq!(hex(&decaps(&p, &sk, &bad)), "bb64e46eb12ee099dc38574576930fed58bf8067880c7182d7d165dcdf4c9291");
    let c = indcpa_enc(&p, &pk, &[0x5au8; 32], &[3u8; 32]).unwrap();
    assert_eq!(hex(&h(&c)), "d31ae2cb4ce7781bbae332c4082acc5d69a296d06efdf82728d5cdc5064a9597");
}

#[test]
fn known_answer_kyber1024() {
    let p = kyber1024();
    let (pk, sk) = keygen(&p, &[7u8; 32], &[9u8; 32]).unwrap();
    assert_eq!(&pk[..8], &[136, 169, 243, 128, 174, 151, 69, 39][..]);
    assert_eq!(hex(&h(&pk)), "52a4cfec1627e55941c7fb21f99f118b88f1280af8a1d2b852ca1012fa347a5e");
    assert_eq!(hex(&h(&sk)), "3b59cb2b569af5acc4dad394f5cbbad2ff9cd37fbe5a270b678ac9b5e729833f");
    let (ct, ss) = encaps(&p, &pk, &[0x5au8; 32]).unwrap();
    assert_eq!(hex(&h(&ct)), "19ff245b598fccf04b7bab203d99ffdd3f6ebb8f7b12d2af53ac03e4df1acc9b");
    assert_eq!(hex(&ss), "73cd5817e043097241951e2999abb6ee7706e3808a3eb84705d90ffac949e743");
    assert_eq!(hex(&decaps(&p, &sk, &ct)), "73cd5817e043097241951e2999abb6ee7706e3808a3eb84705d90ffac949e743");
    let mut bad = ct.clone();
    bad[0] ^= 0x01;
    assert_eq!(hex(&decaps(&p, &sk, &bad)), "3ac42991160523d682c5e41cc46d1103be8aeb51806dc5218c60797ec71ebcb8");
    let c = indcpa_enc(&p, &pk, &[0x5au8; 32], &[3u8; 32]).unwrap();
    assert_eq!(hex(&h(&c)), "381b0b0082f7fc2ac26873b78943c97c488b9ef345fdadcd2e78442d9e34ed12");
}
