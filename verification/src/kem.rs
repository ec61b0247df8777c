//! The key-encapsulation mechanism: the encryption scheme hardened against
//! active attacks by re-encryption and implicit rejection.
use vstd::prelude::*;
use crate::bytes::{append_bytes, copy_range, ct_diff, ct_select, to_array, wipe, zero_mask};
use crate::decaps::{indcpa_dec, spec_indcpa_dec};
use crate::encaps::{indcpa_enc, spec_indcpa_enc, spec_pk_rho};
use crate::hash::{g, h, kdf, spec_g, spec_h, spec_kdf};
use crate::keygen::{indcpa_keypair, spec_indcpa_keypair, spec_rho};
use crate::params::ParamSet;
use crate::polyvec::spec_matrix_ok;

verus! {

/// The key pair of the mechanism for a key-generation seed and a rejection
/// seed `z`.  The secret key holds, without overlap, the secret key of the
/// encryption scheme, the public key, the hash of the public key and `z`.
pub open spec fn spec_keygen(p: ParamSet, seed: Seq<u8>, z: Seq<u8>) -> Option<(Seq<u8>, Seq<u8>)> {
    match spec_indcpa_keypair(p, seed) {
        Some((pk, sk)) => Some((pk, sk + pk + spec_h(pk) + z)),
        None => None,
    }
}

/// The pre-key of an encapsulation: the first half of `G(m || H(pk))`.
pub open spec fn spec_pre_key(m: Seq<u8>, hpk: Seq<u8>) -> Seq<u8> {
    spec_g(m + hpk).subrange(0, 32)
}

/// The coins of an encapsulation: the second half of `G(m || H(pk))`.
pub open spec fn spec_coins(m: Seq<u8>, hpk: Seq<u8>) -> Seq<u8> {
    spec_g(m + hpk).subrange(32, 64)
}

/// Ciphertext and shared secret of the encapsulation of the message `m`
/// under the public key `pk`.
pub open spec fn spec_encaps(p: ParamSet, pk: Seq<u8>, m: Seq<u8>) -> Option<(Seq<u8>, Seq<u8>)> {
    let hpk = spec_h(pk);
    match spec_indcpa_enc(p, pk, m, spec_coins(m, hpk)) {
        Some(ct) => Some((ct, spec_kdf(spec_pre_key(m, hpk) + ct))),
        None => None,
    }
}

/// The part of a secret key that is the secret key of the encryption
/// scheme.
pub open spec fn spec_sk_cpa(p: ParamSet, sk: Seq<u8>) -> Seq<u8> {
    sk.subrange(0, 416 * p.k)
}

/// The public key stored in a secret key.
pub open spec fn spec_sk_pk(p: ParamSet, sk: Seq<u8>) -> Seq<u8> {
    sk.subrange(416 * p.k, 416 * p.k + (416 * p.k + 32))
}

/// The hash of the public key stored in a secret key.
pub open spec fn spec_sk_hpk(p: ParamSet, sk: Seq<u8>) -> Seq<u8> {
    sk.subrange(416 * p.k + (416 * p.k + 32), 416 * p.k + (416 * p.k + 32) + 32)
}

/// The rejection seed stored in a secret key.
pub open spec fn spec_sk_z(p: ParamSet, sk: Seq<u8>) -> Seq<u8> {
    sk.subrange(416 * p.k + (416 * p.k + 32) + 32, 416 * p.k + (416 * p.k + 32) + 64)
}

/// The message that decapsulation recovers from a ciphertext.
pub open spec fn spec_decaps_msg(p: ParamSet, sk: Seq<u8>, ct: Seq<u8>) -> Seq<u8> {
    spec_indcpa_dec(p, spec_sk_cpa(p, sk), ct)
}

/// Whether decapsulation accepts a ciphertext: whether encrypting the
/// recovered message again, with the coins derived from it, gives the same
/// ciphertext.
pub open spec fn spec_decaps_accepts(p: ParamSet, sk: Seq<u8>, ct: Seq<u8>) -> bool {
    let m = spec_decaps_msg(p, sk, ct);
    spec_indcpa_enc(p, spec_sk_pk(p, sk), m, spec_coins(m, spec_sk_hpk(p, sk))) == Some(ct)
}

/// The shared secret of a decapsulation: derived from the pre-key where the
/// ciphertext is accepted, and from the rejection seed where it is not.
pub open spec fn spec_decaps(p: ParamSet, sk: Seq<u8>, ct: Seq<u8>) -> Seq<u8> {
    if spec_decaps_accepts(p, sk, ct) {
        spec_kdf(spec_pre_key(spec_decaps_msg(p, sk, ct), spec_sk_hpk(p, sk)) + ct)
    } else {
        spec_kdf(spec_sk_z(p, sk) + ct)
    }
}

/// Generates a key pair from a 32-byte seed and a 32-byte rejection seed
/// `z`, both of which the caller draws at random.  Returns the public and
/// the secret key, or nothing in the case that uniform sampling of a matrix
/// entry ran out of attempts.
pub fn keygen(params: &ParamSet, seed: &[u8; 32], z: &[u8; 32]) -> (r: Option<(Vec<u8>, Vec<u8>)>)
    requires
        params.wf(),
    ensures
        r is Some <==> spec_matrix_ok(spec_rho(seed@), params.k as int),
        match r {
            Some((pk, sk)) => {
                &&& spec_keygen(*params, seed@, z@) == Some((pk@, sk@))
                &&& pk@.len() == params.spec_public_key_bytes()
                &&& sk@.len() == params.spec_secret_key_bytes()
            },
            None => spec_keygen(*params, seed@, z@) is None,
        },
{
    match indcpa_keypair(params, seed) {
        None => None,
        Some((pk, sk_cpa)) => {
            let hpk = h(pk.as_slice());
            let mut sk = sk_cpa;
            append_bytes(&mut sk, pk.as_slice());
            append_bytes(&mut sk, hpk.as_slice());
            append_bytes(&mut sk, z.as_slice());
            Some((pk, sk))
        },
    }
}

/// Encapsulates the 32-byte message `m`, which the caller draws at random,
/// under a public key.  Returns the ciphertext and the shared secret, or
/// nothing in the case that uniform sampling of a matrix entry ran out of
/// attempts.  The pre-key and the coins are wiped before the function
/// returns.
pub fn encaps(params: &ParamSet, pk: &[u8], m: &[u8; 32]) -> (r: Option<(Vec<u8>, [u8; 32])>)
    requires
        params.wf(),
        pk@.len() == params.spec_public_key_bytes(),
    ensures
        r is Some <==> spec_matrix_ok(spec_pk_rho(*params, pk@), params.k as int),
        match r {
            Some((ct, ss)) => {
                &&& spec_encaps(*params, pk@, m@) == Some((ct@, ss@))
                &&& ct@.len() == params.spec_ciphertext_bytes()
            },
            None => spec_encaps(*params, pk@, m@) is None,
        },
{
    let hpk = h(pk);
    let mut g_in: Vec<u8> = Vec::new();
    append_bytes(&mut g_in, m.as_slice());
    append_bytes(&mut g_in, hpk.as_slice());
    let mut g_out = g(g_in.as_slice());
    wipe(g_in.as_mut_slice());
    let mut kdf_in = copy_range(g_out.as_slice(), 0, 32);
    let mut coins = to_array(copy_range(g_out.as_slice(), 32, 64).as_slice());
    wipe(&mut g_out);
    let sealed = indcpa_enc(params, pk, m, &coins);
    wipe(&mut coins);
    let r = match sealed {
        None => None,
        Some(ct) => {
            append_bytes(&mut kdf_in, ct.as_slice());
            let ss = kdf(kdf_in.as_slice());
            Some((ct, ss))
        },
    };
    wipe(kdf_in.as_mut_slice());
    r
}

/// Decapsulates a ciphertext with a secret key.  Decrypts the ciphertext,
/// encrypts the result again and compares: where the two ciphertexts agree
/// the shared secret is derived from the pre-key, and where they do not, or
/// the second encryption cannot be made, from the rejection seed stored in
/// the secret key.  The comparison and the choice between the two secrets
/// take the same steps whatever the bytes are.  The copies of the parts of
/// the secret key, the recovered message, the pre-key and the coins are
/// wiped before the function returns.
pub fn decaps(params: &ParamSet, sk: &[u8], ct: &[u8]) -> (ss: [u8; 32])
    requires
        params.wf(),
        sk@.len() == params.spec_secret_key_bytes(),
        ct@.len() == params.spec_ciphertext_bytes(),
    ensures
        ss@ == spec_decaps(*params, sk@, ct@),
{
    let vec_bytes = params.poly_vec_bytes();
    let pk_bytes = params.public_key_bytes();
    let mut sk_cpa = copy_range(sk, 0, vec_bytes);
    let pk = copy_range(sk, vec_bytes, vec_bytes + pk_bytes);
    let hpk = copy_range(sk, vec_bytes + pk_bytes, vec_bytes + pk_bytes + 32);
    let mut z = copy_range(sk, vec_bytes + pk_bytes + 32, vec_bytes + pk_bytes + 64);

    let mut m = indcpa_dec(params, sk_cpa.as_slice(), ct);
    wipe(sk_cpa.as_mut_slice());

    let mut g_in: Vec<u8> = Vec::new();
    append_bytes(&mut g_in, m.as_slice());
    append_bytes(&mut g_in, hpk.as_slice());
    let mut g_out = g(g_in.as_slice());
    wipe(g_in.as_mut_slice());
    let mut pre_key = copy_range(g_out.as_slice(), 0, 32);
    let mut coins = to_array(copy_range(g_out.as_slice(), 32, 64).as_slice());
    wipe(&mut g_out);

    let diff: u8 = match indcpa_enc(params, pk.as_slice(), &m, &coins) {
        Some(ct2) => ct_diff(ct, ct2.as_slice()),
        None => 1,
    };
    wipe(&mut m);
    wipe(&mut coins);
    let mut kdf_in = ct_select(pre_key.as_slice(), z.as_slice(), zero_mask(diff));
    wipe(pre_key.as_mut_slice());
    wipe(z.as_mut_slice());
    append_bytes(&mut kdf_in, ct);
    let ss = kdf(kdf_in.as_slice());
    wipe(kdf_in.as_mut_slice());
    ss
}

/// A secret key of the mechanism holds its four parts without overlap: the
/// secret key of the encryption scheme, the public key, the hash of the
/// public key and the rejection seed.
pub proof fn lemma_secret_key_parts(p: ParamSet, seed: Seq<u8>, z: Seq<u8>)
    requires
        p.wf(),
        z.len() == 32,
        spec_keygen(p, seed, z) is Some,
    ensures
        ({
            let (pk, sk) = spec_keygen(p, seed, z).unwrap();
            &&& spec_indcpa_keypair(p, seed) == Some((pk, spec_sk_cpa(p, sk)))
            &&& spec_sk_pk(p, sk) == pk
            &&& spec_sk_hpk(p, sk) == spec_h(pk)
            &&& spec_sk_z(p, sk) == z
        }),
{
    let (pk, sk_cpa) = spec_indcpa_keypair(p, seed).unwrap();
    let sk = spec_keygen(p, seed, z).unwrap().1;
    crate::keygen::lemma_indcpa_keypair_len(p, seed);
    let hpk = spec_h(pk);
    assert(sk == sk_cpa + pk + hpk + z);
    assert(spec_sk_cpa(p, sk) =~= sk_cpa);
    assert(spec_sk_pk(p, sk) =~= pk);
    assert(spec_sk_hpk(p, sk) =~= hpk);
    assert(spec_sk_z(p, sk) =~= z);
}

/// Round trip: for a generated key pair and an encapsulation under its
/// public key, decapsulation with its secret key gives the shared secret
/// of the encapsulation, wherever decryption recovers the encapsulated
/// message.
pub proof fn lemma_decaps_encaps(
    p: ParamSet,
    seed: Seq<u8>,
    z: Seq<u8>,
    m: Seq<u8>,
    pk: Seq<u8>,
    sk: Seq<u8>,
    ct: Seq<u8>,
    ss: Seq<u8>,
)
    requires
        p.wf(),
        z.len() == 32,
        spec_keygen(p, seed, z) == Some((pk, sk)),
        spec_encaps(p, pk, m) == Some((ct, ss)),
        spec_decaps_msg(p, sk, ct) == m,
    ensures
        spec_decaps(p, sk, ct) == ss,
{
    lemma_secret_key_parts(p, seed, z);
}

/// Implicit rejection: a ciphertext that differs from the one of an
/// encapsulation but decrypts to the same message is never accepted.
/// Decapsulation then gives the secret derived from the rejection seed and
/// the ciphertext, in which the pre-key has no part.
pub proof fn lemma_tampered_ciphertext_rejected(
    p: ParamSet,
    seed: Seq<u8>,
    z: Seq<u8>,
    m: Seq<u8>,
    pk: Seq<u8>,
    sk: Seq<u8>,
    ct: Seq<u8>,
    ss: Seq<u8>,
    tampered: Seq<u8>,
)
    requires
        p.wf(),
        z.len() == 32,
        spec_keygen(p, seed, z) == Some((pk, sk)),
        spec_encaps(p, pk, m) == Some((ct, ss)),
        tampered != ct,
        spec_decaps_msg(p, sk, tampered) == m,
    ensures
        !spec_decaps_accepts(p, sk, tampered),
        spec_decaps(p, sk, tampered) == spec_kdf(z + tampered),
{
    lemma_secret_key_parts(p, seed, z);
}

} // verus!
