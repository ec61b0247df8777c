//! Parameter sets: the ring constants, the per-level parameters and every
//! byte length derived from them.
use vstd::prelude::*;

verus! {

/// Number of coefficients of a ring element.
pub const N: usize = 256;

/// The prime modulus of the coefficient field.
pub const Q: i32 = 3329;

/// Bytes of one densely serialized polynomial: 13 bits for each coefficient.
pub const POLY_BYTES: usize = 416;

/// Bytes of a seed, a message, a hash of a public key and a shared secret.
pub const SYM_BYTES: usize = 32;

/// Bytes of a shared secret.
pub const SHARED_SECRET_BYTES: usize = 32;

/// Bytes drawn from the extendable-output function for one attempt at a
/// matrix entry; every further attempt draws this many more.
pub const XOF_DRAW_BYTES: usize = 672;

/// Attempts at a matrix entry before sampling gives up.
pub const XOF_MAX_DRAWS: usize = 4;

/// The parameters of one security level.
#[derive(Clone, Copy, Debug, PartialEq, Eq, Structural)]
pub struct ParamSet {
    /// Dimension of the module: polynomials per vector.
    pub k: usize,
    /// Noise width of the secret, the error of the key and the ephemeral
    /// secret.
    pub eta1: usize,
    /// Noise width of the errors of a ciphertext.
    pub eta2: usize,
    /// Bits per coefficient of the compressed vector `u`.
    pub du: usize,
    /// Bits per coefficient of the compressed polynomial `v`.
    pub dv: usize,
}

impl ParamSet {
    /// The parameters are in the supported ranges.
    pub open spec fn wf(&self) -> bool {
        &&& 2 <= self.k <= 4
        &&& 2 <= self.eta1 <= 3
        &&& 2 <= self.eta2 <= 3
        &&& 1 <= self.du <= 11
        &&& 1 <= self.dv <= 11
    }

    /// Bytes of a serialized polynomial vector.
    pub open spec fn spec_poly_vec_bytes(&self) -> int {
        416 * self.k
    }

    /// Bytes of a public key: the serialized vector `t`, then the seed
    /// `rho`.
    pub open spec fn spec_public_key_bytes(&self) -> int {
        416 * self.k + 32
    }

    /// Bytes of a secret key: the serialized vector `s`, the public key,
    /// the hash of the public key and the rejection seed `z`.
    pub open spec fn spec_secret_key_bytes(&self) -> int {
        416 * self.k + (416 * self.k + 32) + 32 + 32
    }

    /// Bytes of a ciphertext: the compressed vector `u`, then the
    /// compressed polynomial `v`.
    pub open spec fn spec_ciphertext_bytes(&self) -> int {
        32 * self.du * self.k + 32 * self.dv
    }

    /// Bytes of a serialized polynomial vector.
    pub fn poly_vec_bytes(&self) -> (n: usize)
        requires
            self.wf(),
        ensures
            n == self.spec_poly_vec_bytes(),
    {
        POLY_BYTES * self.k
    }

    /// Bytes of a public key.
    pub fn public_key_bytes(&self) -> (n: usize)
        requires
            self.wf(),
        ensures
            n == self.spec_public_key_bytes(),
    {
        POLY_BYTES * self.k + SYM_BYTES
    }

    /// Bytes of a secret key.
    pub fn secret_key_bytes(&self) -> (n: usize)
        requires
            self.wf(),
        ensures
            n == self.spec_secret_key_bytes(),
    {
        let vec_bytes = POLY_BYTES * self.k;
        vec_bytes + (vec_bytes + SYM_BYTES) + SYM_BYTES + SYM_BYTES
    }

    /// Bytes of a ciphertext.
    pub fn ciphertext_bytes(&self) -> (n: usize)
        requires
            self.wf(),
        ensures
            n == self.spec_ciphertext_bytes(),
    {
        assert(0 <= 32 * self.du * self.k <= 32 * 11 * 4) by (nonlinear_arith)
            requires
                0 <= self.du <= 11,
                0 <= self.k <= 4,
        ;
        32 * self.du * self.k + 32 * self.dv
    }
}

/// The three security levels are parameter sets in the supported ranges,
/// so that what holds of every such set holds of each of them.
pub proof fn lemma_levels_supported()
    ensures
        (ParamSet { k: 2, eta1: 3, eta2: 2, du: 10, dv: 4 }).wf(),
        (ParamSet { k: 3, eta1: 2, eta2: 2, du: 10, dv: 4 }).wf(),
        (ParamSet { k: 4, eta1: 2, eta2: 2, du: 11, dv: 5 }).wf(),
{
}

/// The parameters of the level with module dimension 2.
pub fn kyber512() -> (p: ParamSet)
    ensures
        p == (ParamSet { k: 2, eta1: 3, eta2: 2, du: 10, dv: 4 }),
        p.wf(),
{
    ParamSet { k: 2, eta1: 3, eta2: 2, du: 10, dv: 4 }
}

/// The parameters of the level with module dimension 3.
pub fn kyber768() -> (p: ParamSet)
    ensures
        p == (ParamSet { k: 3, eta1: 2, eta2: 2, du: 10, dv: 4 }),
        p.wf(),
{
    ParamSet { k: 3, eta1: 2, eta2: 2, du: 10, dv: 4 }
}

/// The parameters of the level with module dimension 4.
pub fn kyber1024() -> (p: ParamSet)
    ensures
        p == (ParamSet { k: 4, eta1: 2, eta2: 2, du: 11, dv: 5 }),
        p.wf(),
{
    ParamSet { k: 4, eta1: 2, eta2: 2, du: 11, dv: 5 }
}

} // verus!
