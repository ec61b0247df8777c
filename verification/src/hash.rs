//! The symmetric primitives: the hashes `H` and `G`, the pseudorandom
//! function, the key-derivation function and the extendable-output function
//! that expands the public seed.
//!
//! The SHA-3 functions come from the `sha3` crate.  What they compute enters
//! the contracts as uninterpreted functions of the input bytes; this module
//! is the only place where those functions are called.
use vstd::prelude::*;
use crate::bytes::{append_bytes, to_array, wipe};

verus! {

/// The SHA3-256 digest of `data`.
pub uninterp spec fn spec_sha3_256(data: Seq<u8>) -> Seq<u8>;

/// The SHA3-512 digest of `data`.
pub uninterp spec fn spec_sha3_512(data: Seq<u8>) -> Seq<u8>;

/// The first `len` bytes of the SHAKE128 output for `data`.
pub uninterp spec fn spec_shake128(data: Seq<u8>, len: nat) -> Seq<u8>;

/// The first `len` bytes of the SHAKE256 output for `data`.
pub uninterp spec fn spec_shake256(data: Seq<u8>, len: nat) -> Seq<u8>;

/// The first `len` bytes of `s`.
pub open spec fn spec_first(s: Seq<u8>, len: nat) -> Seq<u8> {
    Seq::new(len, |i: int| s[i])
}

/// `H`: the 32 bytes of SHA3-256.
pub open spec fn spec_h(data: Seq<u8>) -> Seq<u8> {
    spec_first(spec_sha3_256(data), 32)
}

/// `G`: the 64 bytes of SHA3-512.
pub open spec fn spec_g(data: Seq<u8>) -> Seq<u8> {
    spec_first(spec_sha3_512(data), 64)
}

/// The pseudorandom function: `len` bytes of SHAKE256 of the seed followed
/// by the nonce.
pub open spec fn spec_prf(seed: Seq<u8>, nonce: u8, len: nat) -> Seq<u8> {
    spec_first(spec_shake256(seed.push(nonce), len), len)
}

/// The key-derivation function: 32 bytes of SHAKE256.
pub open spec fn spec_kdf(data: Seq<u8>) -> Seq<u8> {
    spec_first(spec_shake256(data, 32), 32)
}

/// The extendable-output function: `len` bytes of SHAKE128.
pub open spec fn spec_xof(data: Seq<u8>, len: nat) -> Seq<u8> {
    spec_first(spec_shake128(data, len), len)
}

/// Calls `sha3::Sha3_256` through `Digest::digest`.  The contract claims
/// that the 32 bytes returned are the SHA3-256 digest of `data`, a function
/// of `data` alone.
#[verifier::external_body]
fn sha3_256(data: &[u8]) -> (out: [u8; 32])
    ensures
        out@ == spec_sha3_256(data@),
{
    <sha3::Sha3_256 as sha3::Digest>::digest(data).into()
}

/// Calls `sha3::Sha3_512` through `Digest::digest`.  The contract claims
/// that the 64 bytes returned are the SHA3-512 digest of `data`, a function
/// of `data` alone.
#[verifier::external_body]
fn sha3_512(data: &[u8]) -> (out: [u8; 64])
    ensures
        out@ == spec_sha3_512(data@),
{
    <sha3::Sha3_512 as sha3::Digest>::digest(data).into()
}

/// Calls `sha3::Shake128` through `ExtendableOutput::digest_xof`.  The
/// contract claims that the result has `out_len` bytes and is the SHAKE128
/// output for `data` cut to that length, a function of `data` and `out_len`
/// alone.
#[verifier::external_body]
fn shake128(data: &[u8], out_len: usize) -> (out: Vec<u8>)
    ensures
        out@ == spec_shake128(data@, out_len as nat),
        out@.len() == out_len,
{
    let mut out = vec![0u8; out_len];
    <sha3::Shake128 as sha3::digest::ExtendableOutput>::digest_xof(data, &mut out);
    out
}

/// Calls `sha3::Shake256` through `ExtendableOutput::digest_xof`.  The
/// contract claims that the result has `out_len` bytes and is the SHAKE256
/// output for `data` cut to that length, a function of `data` and `out_len`
/// alone.
#[verifier::external_body]
fn shake256(data: &[u8], out_len: usize) -> (out: Vec<u8>)
    ensures
        out@ == spec_shake256(data@, out_len as nat),
        out@.len() == out_len,
{
    let mut out = vec![0u8; out_len];
    <sha3::Shake256 as sha3::digest::ExtendableOutput>::digest_xof(data, &mut out);
    out
}

/// `H`: hashes `data` to 32 bytes.
pub fn h(data: &[u8]) -> (out: [u8; 32])
    ensures
        out@ == spec_h(data@),
{
    let out = sha3_256(data);
    proof {
        assert(out@ =~= spec_h(data@));
    }
    out
}

/// `G`: hashes `data` to 64 bytes.
pub fn g(data: &[u8]) -> (out: [u8; 64])
    ensures
        out@ == spec_g(data@),
{
    let out = sha3_512(data);
    proof {
        assert(out@ =~= spec_g(data@));
    }
    out
}

/// The pseudorandom function: `out_len` bytes derived from a seed and a
/// one-byte nonce.
pub fn prf(seed: &[u8], nonce: u8, out_len: usize) -> (out: Vec<u8>)
    ensures
        out@ == spec_prf(seed@, nonce, out_len as nat),
        out@.len() == out_len,
{
    let mut input: Vec<u8> = Vec::new();
    append_bytes(&mut input, seed);
    input.push(nonce);
    proof {
        assert(input@ =~= seed@.push(nonce));
    }
    let out = shake256(input.as_slice(), out_len);
    wipe(input.as_mut_slice());
    proof {
        assert(out@ =~= spec_prf(seed@, nonce, out_len as nat));
    }
    out
}

/// The key-derivation function: 32 bytes derived from `data`.
pub fn kdf(data: &[u8]) -> (out: [u8; 32])
    ensures
        out@ == spec_kdf(data@),
{
    let mut v = shake256(data, 32);
    proof {
        assert(v@ =~= spec_kdf(data@));
    }
    let out = to_array(v.as_slice());
    wipe(v.as_mut_slice());
    out
}

/// The extendable-output function: `out_len` bytes derived from `data`.
pub fn xof(data: &[u8], out_len: usize) -> (out: Vec<u8>)
    ensures
        out@ == spec_xof(data@, out_len as nat),
        out@.len() == out_len,
{
    let out = shake128(data, out_len);
    proof {
        assert(out@ =~= spec_xof(data@, out_len as nat));
    }
    out
}

} // verus!
