//! Arithmetic in the coefficient field: the integers modulo the prime 3329,
//! each class represented by its member in `[0, 3329)`.
use vstd::prelude::*;
use vstd::arithmetic::div_mod::{lemma_mod_multiples_vanish, lemma_mul_mod_noop_general};
use crate::params::Q;

verus! {

/// Whether `x` is the canonical representative of its class modulo 3329.
pub open spec fn canonical(x: int) -> bool {
    0 <= x < 3329
}

/// Whether every element of `s` is canonical.
pub open spec fn all_canonical(s: Seq<int>) -> bool {
    forall|i: int| 0 <= i < s.len() ==> canonical(#[trigger] s[i])
}

/// The elements of `s` as mathematical integers.
pub open spec fn as_ints(s: Seq<i16>) -> Seq<int> {
    Seq::new(s.len(), |i: int| s[i] as int)
}

/// Sum modulo 3329.
pub fn fq_add(a: i16, b: i16) -> (r: i16)
    requires
        canonical(a as int),
        canonical(b as int),
    ensures
        r as int == (a as int + b as int) % 3329,
        canonical(r as int),
{
    let s: i32 = a as i32 + b as i32;
    (s % Q) as i16
}

/// Difference modulo 3329.
pub fn fq_sub(a: i16, b: i16) -> (r: i16)
    requires
        canonical(a as int),
        canonical(b as int),
    ensures
        r as int == (a as int - b as int) % 3329,
        canonical(r as int),
{
    let s: i32 = a as i32 - b as i32 + Q;
    (s % Q) as i16
}

/// Product modulo 3329, computed in 32 bits.
pub fn fq_mul(a: i16, b: i16) -> (r: i16)
    requires
        canonical(a as int),
        canonical(b as int),
    ensures
        r as int == (a as int * b as int) % 3329,
        canonical(r as int),
{
    assert(0 <= (a as int) * (b as int) <= 3328 * 3328) by (nonlinear_arith)
        requires
            0 <= a as int <= 3328,
            0 <= b as int <= 3328,
    ;
    let s: i32 = a as i32 * b as i32;
    (s % Q) as i16
}

/// Reducing a factor first does not change a product modulo 3329.
pub proof fn lemma_mul_mod(x: int, y: int)
    ensures
        ((x % 3329) * y) % 3329 == (x * y) % 3329,
        (x * (y % 3329)) % 3329 == (x * y) % 3329,
        ((x % 3329) * (y % 3329)) % 3329 == (x * y) % 3329,
{
    lemma_mul_mod_noop_general(x, y, 3329);
}

/// Two integers that differ by a multiple of 3329 have the same residue.
pub proof fn lemma_mod_shift(a: int, b: int, m: int)
    requires
        a == b + m * 3329,
    ensures
        a % 3329 == b % 3329,
{
    lemma_mod_multiples_vanish(m, b, 3329);
}

} // verus!
