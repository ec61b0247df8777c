//! The mechanism at the security level of module dimension 2: keys,
//! ciphertexts and shared secrets as typed byte arrays.
use vstd::prelude::*;
use vstd::std_specs::convert::FromSpecImpl;
use crate::bytes::{all_zero, to_array, wipe};
use crate::encaps::spec_pk_rho;
use crate::kem::{spec_decaps, spec_encaps, spec_keygen};
use crate::keygen::spec_rho;
use crate::params::ParamSet;
use crate::polyvec::spec_matrix_ok;

verus! {

/// Dimension of the module.
pub const K: usize = 2;

/// Noise width of the secret, the error of the key and the ephemeral secret.
pub const ETA1: usize = 3;

/// Noise width of the errors of a ciphertext.
pub const ETA2: usize = 2;

/// Bits per coefficient of the compressed vector of a ciphertext.
pub const DU: usize = 10;

/// Bits per coefficient of the compressed polynomial of a ciphertext.
pub const DV: usize = 4;

/// Bytes of a serialized polynomial.
pub const POLY_BYTES: usize = 416;

/// Bytes of a serialized polynomial vector.
pub const POLY_VEC_BYTES: usize = 832;

/// Bytes of a compressed polynomial of a ciphertext.
pub const POLY_COMPRESSED_BYTES: usize = 128;

/// Bytes of a compressed polynomial vector of a ciphertext.
pub const POLY_VEC_COMPRESSED_BYTES: usize = 640;

/// Bytes of a public key.
pub const PUBLIC_KEY_BYTES: usize = 864;

/// Bytes of a secret key.
pub const SECRET_KEY_BYTES: usize = 1760;

/// Bytes of a ciphertext.
pub const CIPHERTEXT_BYTES: usize = 768;

/// Bytes of a shared secret.
pub const SHARED_SECRET_BYTES: usize = 32;

/// The parameters of this level.
pub open spec fn spec_params() -> ParamSet {
    ParamSet { k: 2, eta1: 3, eta2: 2, du: 10, dv: 4 }
}

/// The parameters of this level.
pub fn params() -> (p: ParamSet)
    ensures
        p == spec_params(),
        p.wf(),
        p.spec_public_key_bytes() == PUBLIC_KEY_BYTES,
        p.spec_secret_key_bytes() == SECRET_KEY_BYTES,
        p.spec_ciphertext_bytes() == CIPHERTEXT_BYTES,
{
    crate::params::kyber512()
}

/// A public key: the serialized vector `t`, then the public seed.
#[derive(Clone, Copy)]
pub struct PublicKey(pub [u8; PUBLIC_KEY_BYTES]);

/// A secret key: the serialized secret vector, the public key, the hash of
/// the public key and the rejection seed.
#[derive(Clone, Copy)]
pub struct SecretKey(pub [u8; SECRET_KEY_BYTES]);

/// A ciphertext: the compressed vector `u`, then the compressed polynomial
/// `v`.
#[derive(Clone, Copy)]
pub struct Ciphertext(pub [u8; CIPHERTEXT_BYTES]);

/// A shared secret.
#[derive(Clone, Copy)]
pub struct SharedSecret(pub [u8; SHARED_SECRET_BYTES]);

impl View for PublicKey {
    type V = Seq<u8>;

    open spec fn view(&self) -> Seq<u8> {
        self.0@
    }
}

impl View for SecretKey {
    type V = Seq<u8>;

    open spec fn view(&self) -> Seq<u8> {
        self.0@
    }
}

impl View for Ciphertext {
    type V = Seq<u8>;

    open spec fn view(&self) -> Seq<u8> {
        self.0@
    }
}

impl View for SharedSecret {
    type V = Seq<u8>;

    open spec fn view(&self) -> Seq<u8> {
        self.0@
    }
}

impl From<[u8; PUBLIC_KEY_BYTES]> for PublicKey {
    fn from(bytes: [u8; PUBLIC_KEY_BYTES]) -> (r: Self) {
        PublicKey(bytes)
    }
}

impl FromSpecImpl<[u8; PUBLIC_KEY_BYTES]> for PublicKey {
    open spec fn obeys_from_spec() -> bool {
        true
    }

    open spec fn from_spec(bytes: [u8; PUBLIC_KEY_BYTES]) -> Self {
        PublicKey(bytes)
    }
}

impl From<PublicKey> for [u8; PUBLIC_KEY_BYTES] {
    fn from(value: PublicKey) -> (r: Self) {
        value.0
    }
}

impl FromSpecImpl<PublicKey> for [u8; PUBLIC_KEY_BYTES] {
    open spec fn obeys_from_spec() -> bool {
        true
    }

    open spec fn from_spec(value: PublicKey) -> Self {
        value.0
    }
}

impl From<[u8; SECRET_KEY_BYTES]> for SecretKey {
    fn from(bytes: [u8; SECRET_KEY_BYTES]) -> (r: Self) {
        SecretKey(bytes)
    }
}

impl FromSpecImpl<[u8; SECRET_KEY_BYTES]> for SecretKey {
    open spec fn obeys_from_spec() -> bool {
        true
    }

    open spec fn from_spec(bytes: [u8; SECRET_KEY_BYTES]) -> Self {
        SecretKey(bytes)
    }
}

impl From<SecretKey> for [u8; SECRET_KEY_BYTES] {
    fn from(value: SecretKey) -> (r: Self) {
        value.0
    }
}

impl FromSpecImpl<SecretKey> for [u8; SECRET_KEY_BYTES] {
    open spec fn obeys_from_spec() -> bool {
        true
    }

    open spec fn from_spec(value: SecretKey) -> Self {
        value.0
    }
}

impl From<[u8; CIPHERTEXT_BYTES]> for Ciphertext {
    fn from(bytes: [u8; CIPHERTEXT_BYTES]) -> (r: Self) {
        Ciphertext(bytes)
    }
}

impl FromSpecImpl<[u8; CIPHERTEXT_BYTES]> for Ciphertext {
    open spec fn obeys_from_spec() -> bool {
        true
    }

    open spec fn from_spec(bytes: [u8; CIPHERTEXT_BYTES]) -> Self {
        Ciphertext(bytes)
    }
}

impl From<Ciphertext> for [u8; CIPHERTEXT_BYTES] {
    fn from(value: Ciphertext) -> (r: Self) {
        value.0
    }
}

impl FromSpecImpl<Ciphertext> for [u8; CIPHERTEXT_BYTES] {
    open spec fn obeys_from_spec() -> bool {
        true
    }

    open spec fn from_spec(value: Ciphertext) -> Self {
        value.0
    }
}

impl From<[u8; SHARED_SECRET_BYTES]> for SharedSecret {
    fn from(bytes: [u8; SHARED_SECRET_BYTES]) -> (r: Self) {
        SharedSecret(bytes)
    }
}

impl FromSpecImpl<[u8; SHARED_SECRET_BYTES]> for SharedSecret {
    open spec fn obeys_from_spec() -> bool {
        true
    }

    open spec fn from_spec(bytes: [u8; SHARED_SECRET_BYTES]) -> Self {
        SharedSecret(bytes)
    }
}

impl From<SharedSecret> for [u8; SHARED_SECRET_BYTES] {
    fn from(value: SharedSecret) -> (r: Self) {
        value.0
    }
}

impl FromSpecImpl<SharedSecret> for [u8; SHARED_SECRET_BYTES] {
    open spec fn obeys_from_spec() -> bool {
        true
    }

    open spec fn from_spec(value: SharedSecret) -> Self {
        value.0
    }
}

impl PublicKey {
    /// The bytes of the key.
    pub fn as_bytes(&self) -> (r: &[u8])
        ensures
            r@ == self@,
    {
        self.0.as_slice()
    }

    /// The key as an array of bytes.
    pub fn to_bytes(self) -> (r: [u8; PUBLIC_KEY_BYTES])
        ensures
            r@ == self@,
    {
        self.0
    }
}

impl SecretKey {
    /// The bytes of the key.
    pub fn as_bytes(&self) -> (r: &[u8])
        ensures
            r@ == self@,
    {
        self.0.as_slice()
    }

    /// The key as an array of bytes.
    pub fn to_bytes(self) -> (r: [u8; SECRET_KEY_BYTES])
        ensures
            r@ == self@,
    {
        self.0
    }

    /// Overwrites the key with zeros.
    pub fn zeroize(&mut self)
        ensures
            all_zero(final(self)@),
    {
        wipe(&mut self.0);
    }
}

impl Ciphertext {
    /// The bytes of the ciphertext.
    pub fn as_bytes(&self) -> (r: &[u8])
        ensures
            r@ == self@,
    {
        self.0.as_slice()
    }

    /// The ciphertext as an array of bytes.
    pub fn to_bytes(self) -> (r: [u8; CIPHERTEXT_BYTES])
        ensures
            r@ == self@,
    {
        self.0
    }
}

impl SharedSecret {
    /// The bytes of the shared secret.
    pub fn as_bytes(&self) -> (r: &[u8])
        ensures
            r@ == self@,
    {
        self.0.as_slice()
    }

    /// The shared secret as an array of bytes.
    pub fn to_bytes(self) -> (r: [u8; SHARED_SECRET_BYTES])
        ensures
            r@ == self@,
    {
        self.0
    }

    /// Overwrites the shared secret with zeros.
    pub fn zeroize(&mut self)
        ensures
            all_zero(final(self)@),
    {
        wipe(&mut self.0);
    }
}

/// Generates a key pair from a 32-byte seed and a 32-byte rejection seed,
/// both of which the caller draws at random.  Returns nothing in the case
/// that uniform sampling of a matrix entry ran out of attempts.
pub fn keypair(seed: &[u8; 32], z: &[u8; 32]) -> (r: Option<(PublicKey, SecretKey)>)
    ensures
        r is Some <==> spec_matrix_ok(spec_rho(seed@), K as int),
        match r {
            Some((pk, sk)) => spec_keygen(spec_params(), seed@, z@) == Some((pk@, sk@)),
            None => spec_keygen(spec_params(), seed@, z@) is None,
        },
{
    let p = params();
    match crate::kem::keygen(&p, seed, z) {
        None => None,
        Some((pk, sk)) => Some(
            (PublicKey(to_array(pk.as_slice())), SecretKey(to_array(sk.as_slice()))),
        ),
    }
}

/// Encapsulates the 32-byte message `m`, which the caller draws at random,
/// under a public key.  Returns the ciphertext and the shared secret, or
/// nothing in the case that uniform sampling of a matrix entry ran out of
/// attempts.
pub fn encaps(pk: &PublicKey, m: &[u8; 32]) -> (r: Option<(Ciphertext, SharedSecret)>)
    ensures
        r is Some <==> spec_matrix_ok(spec_pk_rho(spec_params(), pk@), K as int),
        match r {
            Some((ct, ss)) => spec_encaps(spec_params(), pk@, m@) == Some((ct@, ss@)),
            None => spec_encaps(spec_params(), pk@, m@) is None,
        },
{
    let p = params();
    match crate::kem::encaps(&p, pk.0.as_slice(), m) {
        None => None,
        Some((ct, ss)) => Some((Ciphertext(to_array(ct.as_slice())), SharedSecret(ss))),
    }
}

/// Decapsulates a ciphertext with a secret key.  Always returns a shared
/// secret: the one of the encapsulation where the ciphertext is accepted,
/// and one derived from the rejection seed where it is not.
pub fn decaps(sk: &SecretKey, ct: &Ciphertext) -> (ss: SharedSecret)
    ensures
        ss@ == spec_decaps(spec_params(), sk@, ct@),
{
    let p = params();
    SharedSecret(crate::kem::decaps(&p, sk.0.as_slice(), ct.0.as_slice()))
}

} // verus!
