use rusty_kyber::bytes::{
    append_bytes, copy_range, ct_diff, ct_eq, ct_select, to_array, zero_mask,
};
use rusty_kyber::hash::{g, h, kdf, prf, xof};

fn hex(bytes: &[u8]) -> String {
    bytes.iter().map(|b| format!("{:02x}", b)).collect()
}

#[test]
fn h_is_sha3_256() {
    assert_eq!(hex(&h(b"")), "a7ffc6f8bf1ed76651c14756a061d662f580ff4de43b49fa82d80a4b80f8434a");
    assert_eq!(hex(&h(b"abc")), "3a985da74fe225b2045c172d6bd390bd855f086e3e9d525b46bfe24511431532");
}

#[test]
fn g_is_sha3_512() {
    assert_eq!(hex(&g(b"")), "a69f73cca23a9ac5c8b567dc185a756e97c982164fe25859e0d1dcc1475c80a615b2123af1f5f94c11e3e9402c3ac558f500199d95b6d3e301758586281dcd26");
    assert_eq!(hex(&g(b"abc")), "b751850b1a57168a5693cd924b6b096e08f621827444f70d884f5d0240d2712e10e116e9192af3c91a7ec57647e3934057340b4cf408d5a56592f8274eec53f0");
}

#[test]
fn xof_is_shake128() {
    assert_eq!(hex(&xof(b"", 32)), "7f9c2ba4e88f827d616045507605853ed73b8093f6efbc88eb1a6eacfa66ef26");
    assert_eq!(hex(&xof(b"abc", 10)), "5881092dd818bf5cf8a3");
    assert_eq!(xof(b"abc", 0).len(), 0);
    let long = xof(b"abc", 700);
    assert_eq!(long.len(), 700);
    assert_eq!(&long[..10], &xof(b"abc", 10)[..]);
}

#[test]
fn kdf_is_32_bytes_of_shake256() {
    assert_eq!(hex(&kdf(b"")), "46b9dd2b0ba88d13233b3feb743eeb243fcd52ea62b81b82b50c27646ed5762f");
    assert_eq!(hex(&kdf(b"abc")), "483366601360a8771c6863080cc4114d8db44530f8f1e1ee4f94ea37e78b5739");
}

#[test]
fn prf_is_shake256_of_seed_and_nonce() {
    let seed = [0x07u8; 32];
    assert_eq!(hex(&prf(&seed, 3, 16)), "02865e295863edb10d849de7989e813c");
    let mut input = seed.to_vec();
    input.push(200);
    assert_eq!(&prf(&seed, 200, 32)[..], &kdf(&input)[..]);
    assert_eq!(prf(&seed, 0, 192).len(), 192);
    assert_ne!(prf(&seed, 0, 32), prf(&seed, 1, 32));
}

#[test]
fn ct_eq_compares_contents() {
    assert!(ct_eq(b"", b""));
    assert!(ct_eq(b"abc", b"abc"));
    assert!(!ct_eq(b"abc", b"abd"));
    assert!(!ct_eq(b"abc", b"bbc"));
    assert!(!ct_eq(b"abc", b"abcd"));
    assert!(!ct_eq(b"abc", b""));
    assert!(!ct_eq(&[0x80, 0x00], &[0x00, 0x00]));
}

#[test]
fn ct_diff_is_zero_for_equal_strings_only() {
    assert_eq!(ct_diff(b"", b""), 0);
    assert_eq!(ct_diff(b"same bytes", b"same bytes"), 0);
    assert_eq!(ct_diff(&[1, 2, 3], &[1, 2, 7]), 4);
    assert_eq!(ct_diff(&[0x0f, 0xf0], &[0x00, 0x00]), 0xff);
    assert_ne!(ct_diff(&[0, 0, 0, 1], &[0, 0, 0, 0]), 0);
}

#[test]
fn zero_mask_is_all_ones_for_zero_only() {
    assert_eq!(zero_mask(0), 0xff);
    for d in 1..=255u8 {
        assert_eq!(zero_mask(d), 0x00);
    }
}

#[test]
fn ct_select_picks_by_mask() {
    let a = [1u8, 2, 3, 0xff];
    let b = [9u8, 8, 7, 0x00];
    assert_eq!(ct_select(&a, &b, 0xff), a.to_vec());
    assert_eq!(ct_select(&a, &b, 0x00), b.to_vec());
    assert_eq!(ct_select(&[], &[], 0xff), Vec::<u8>::new());
}

#[test]
fn byte_helpers() {
    let mut v = vec![1u8, 2];
    append_bytes(&mut v, &[3, 4, 5]);
    assert_eq!(v, vec![1, 2, 3, 4, 5]);
    assert_eq!(copy_range(&v, 1, 4), vec![2, 3, 4]);
    assert_eq!(copy_range(&v, 2, 2), Vec::<u8>::new());
    let a: [u8; 5] = to_array(&v);
    assert_eq!(a, [1, 2, 3, 4, 5]);
    let w: Vec<u8> = (0..32).collect();
    let b: [u8; 32] = to_array(&w);
    assert_eq!(b[31], 31);
}
