//! A lattice-based key-encapsulation mechanism of the Kyber family over the
//! ring of 256-coefficient polynomials modulo 3329, at three security levels.
//!
//! Every executable function carries a contract over mathematical models:
//! polynomials are sequences of 256 integers, keys and ciphertexts are
//! sequences of bytes.  The hash functions are supplied by the `sha3` crate
//! and enter the contracts as uninterpreted functions of their input; the
//! wiping of secrets is supplied by the `zeroize` crate.
//!
//! The modules, from the ground up:
//!
//! * `params`: the constants and the parameter sets;
//! * `field`, `zetas`, `ntt`, `poly`: arithmetic modulo 3329, the table of
//!   roots, the transform and the tagged polynomial type;
//! * `bits`, `compression`, `utils`: packing of bits, lossy compression,
//!   serialization, noise and uniform sampling, message encoding;
//! * `hash`, `bytes`: the symmetric primitives and helpers on byte buffers;
//! * `polyvec`, `keygen`, `encaps`, `decaps`: vectors of polynomials and the
//!   encryption scheme;
//! * `kem`, `kyber512`, `kyber768`, `kyber1024`: the mechanism, for any
//!   parameter set and with typed keys for each level;
//! * `sums`, `convolution`, `linearity`, `correctness`: what is proved of
//!   the above: the product that the transform realizes, the linearity of
//!   the transform, and when decryption and decapsulation give back what
//!   went in.
pub mod params;
pub mod bytes;
pub mod hash;
pub mod field;
pub mod bits;
pub mod sums;
pub mod zetas;
pub mod ntt;
pub mod poly;
pub mod convolution;
pub mod linearity;
pub mod compression;
pub mod utils;
pub mod polyvec;
pub mod keygen;
pub mod encaps;
pub mod decaps;
pub mod kem;
pub mod correctness;
pub mod kyber512;
pub mod kyber768;
pub mod kyber1024;
