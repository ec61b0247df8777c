//! Ring elements: polynomials of 256 coefficients modulo 3329.
//!
//! A polynomial is either in the coefficient domain or in the evaluation
//! domain, and carries a tag that says which.  `add` and `sub` work in
//! either domain on two operands of the same domain, `ntt` takes the
//! coefficient domain to the evaluation domain, `inv_ntt` goes back, and
//! `pointwise_mul` multiplies in the evaluation domain.  The contracts hold
//! every caller to this: mixing domains does not verify.
use vstd::prelude::*;
use crate::field::{all_canonical, as_ints, canonical, fq_add, fq_mul, fq_sub};
use crate::ntt::{spec_inv_ntt, spec_ntt};
use crate::params::N;

verus! {

/// The domain that the coefficients of a polynomial are in.
#[derive(Clone, Copy, Debug, PartialEq, Eq, Structural)]
pub enum Domain {
    /// The coefficients of the polynomial itself.
    Coefficient,
    /// The values that the forward transform gives.
    Evaluation,
}

/// A polynomial with 256 coefficients, each kept in `[0, 3329)`, tagged with
/// its domain.
#[derive(Clone, Copy)]
pub struct Poly {
    pub coeffs: [i16; N],
    pub domain: Domain,
}

/// The polynomial whose coefficients are all zero.
pub open spec fn spec_zero() -> Seq<int> {
    Seq::new(256, |i: int| 0int)
}

/// Coefficient-wise sum modulo 3329.
pub open spec fn spec_poly_add(a: Seq<int>, b: Seq<int>) -> Seq<int> {
    Seq::new(256, |i: int| (a[i] + b[i]) % 3329)
}

/// Coefficient-wise difference modulo 3329.
pub open spec fn spec_poly_sub(a: Seq<int>, b: Seq<int>) -> Seq<int> {
    Seq::new(256, |i: int| (a[i] - b[i]) % 3329)
}

/// Coefficient-wise product modulo 3329.
pub open spec fn spec_pointwise_mul(a: Seq<int>, b: Seq<int>) -> Seq<int> {
    Seq::new(256, |i: int| (a[i] * b[i]) % 3329)
}

/// Whether `p` has 256 coefficients, all in `[0, 3329)`.
pub open spec fn is_poly(p: Seq<int>) -> bool {
    p.len() == 256 && all_canonical(p)
}

/// Wipes the coefficients of a polynomial: calls
/// `zeroize::Zeroize::zeroize` on the array, which overwrites every element
/// with zero by writes that the compiler may not remove.  The contract
/// claims that every coefficient is zero afterwards.
#[verifier::external_body]
fn wipe_coeffs(coeffs: &mut [i16; N])
    ensures
        forall|i: int| 0 <= i < 256 ==> #[trigger] final(coeffs)@[i] == 0,
{
    zeroize::Zeroize::zeroize(coeffs);
}

impl View for Poly {
    type V = Seq<int>;

    /// The coefficients as mathematical integers.
    open spec fn view(&self) -> Seq<int> {
        as_ints(self.coeffs@)
    }
}

impl Default for Poly {
    fn default() -> (r: Self)
        ensures
            r@ == spec_zero(),
            r.wf(),
            r.domain == Domain::Coefficient,
    {
        let r = Poly { coeffs: [0i16;N], domain: Domain::Coefficient };
        proof {
            assert(r@ =~= spec_zero());
        }
        r
    }
}

impl Poly {
    /// Every coefficient is in `[0, 3329)`.
    pub open spec fn wf(&self) -> bool {
        all_canonical(self@)
    }

    /// The zero polynomial, in the coefficient domain.
    pub fn new() -> (r: Self)
        ensures
            r@ == spec_zero(),
            r.wf(),
            r.domain == Domain::Coefficient,
    {
        Poly::zero(Domain::Coefficient)
    }

    /// The zero polynomial in the given domain.
    pub fn zero(domain: Domain) -> (r: Self)
        ensures
            r@ == spec_zero(),
            r.wf(),
            r.domain == domain,
    {
        let r = Poly { coeffs: [0i16;N], domain };
        proof {
            assert(r@ =~= spec_zero());
        }
        r
    }

    /// Overwrites the polynomial with zeros, for secrets that are no longer
    /// needed.  The tag stays.
    pub fn wipe(&mut self)
        ensures
            final(self)@ == spec_zero(),
            final(self).wf(),
            final(self).domain == old(self).domain,
    {
        wipe_coeffs(&mut self.coeffs);
        proof {
            assert(self@ =~= spec_zero());
        }
    }

    /// Adds `b` to `self`, coefficient by coefficient.
    pub fn add(&mut self, b: &Poly)
        requires
            old(self).wf(),
            b.wf(),
            old(self).domain == b.domain,
        ensures
            final(self)@ == spec_poly_add(old(self)@, b@),
            final(self).wf(),
            final(self).domain == old(self).domain,
    {
        let ghost a = self@;
        let mut i: usize = 0;
        while i < N
            invariant
                i <= 256,
                a.len() == 256,
                all_canonical(a),
                b.wf(),
                self.wf(),
                self.domain == old(self).domain,
                forall|t: int| 0 <= t < i ==> self@[t] == (a[t] + b@[t]) % 3329,
                forall|t: int| i <= t < 256 ==> self@[t] == a[t],
            decreases 256 - i,
        {
            let ghost before = self@;
            assert(canonical(self@[i as int]));
            assert(canonical(b@[i as int]));
            self.coeffs[i] = fq_add(self.coeffs[i], b.coeffs[i]);
            proof {
                assert forall|t: int| 0 <= t < 256 && t != i implies #[trigger] self@[t]
                    == before[t] by {}
                assert(self@[i as int] == self.coeffs@[i as int] as int);
            }
            i += 1;
        }
        proof {
            assert(self@ =~= spec_poly_add(a, b@));
        }
    }

    /// Subtracts `b` from `self`, coefficient by coefficient.
    pub fn sub(&mut self, b: &Poly)
        requires
            old(self).wf(),
            b.wf(),
            old(self).domain == b.domain,
        ensures
            final(self)@ == spec_poly_sub(old(self)@, b@),
            final(self).wf(),
            final(self).domain == old(self).domain,
    {
        let ghost a = self@;
        let mut i: usize = 0;
        while i < N
            invariant
                i <= 256,
                a.len() == 256,
                all_canonical(a),
                b.wf(),
                self.wf(),
                self.domain == old(self).domain,
                forall|t: int| 0 <= t < i ==> self@[t] == (a[t] - b@[t]) % 3329,
                forall|t: int| i <= t < 256 ==> self@[t] == a[t],
            decreases 256 - i,
        {
            let ghost before = self@;
            assert(canonical(self@[i as int]));
            assert(canonical(b@[i as int]));
            self.coeffs[i] = fq_sub(self.coeffs[i], b.coeffs[i]);
            proof {
                assert forall|t: int| 0 <= t < 256 && t != i implies #[trigger] self@[t]
                    == before[t] by {}
                assert(self@[i as int] == self.coeffs@[i as int] as int);
            }
            i += 1;
        }
        proof {
            assert(self@ =~= spec_poly_sub(a, b@));
        }
    }

    /// Takes `self` from the coefficient domain to the evaluation domain.
    pub fn ntt(&mut self)
        requires
            old(self).wf(),
            old(self).domain == Domain::Coefficient,
        ensures
            final(self)@ == spec_ntt(old(self)@),
            final(self).wf(),
            final(self).domain == Domain::Evaluation,
    {
        crate::ntt::ntt(&mut self.coeffs);
        self.domain = Domain::Evaluation;
    }

    /// Takes `self` from the evaluation domain back to the coefficient
    /// domain.
    pub fn inv_ntt(&mut self)
        requires
            old(self).wf(),
            old(self).domain == Domain::Evaluation,
        ensures
            final(self)@ == spec_inv_ntt(old(self)@),
            final(self).wf(),
            final(self).domain == Domain::Coefficient,
    {
        crate::ntt::inv_ntt(&mut self.coeffs);
        self.domain = Domain::Coefficient;
    }

    /// Multiplies `self` by `b`, coefficient by coefficient; both operands
    /// are in the evaluation domain.
    pub fn pointwise_mul(&mut self, b: &Poly)
        requires
            old(self).wf(),
            b.wf(),
            old(self).domain == Domain::Evaluation,
            b.domain == Domain::Evaluation,
        ensures
            final(self)@ == spec_pointwise_mul(old(self)@, b@),
            final(self).wf(),
            final(self).domain == Domain::Evaluation,
    {
        let ghost a = self@;
        let mut i: usize = 0;
        while i < N
            invariant
                i <= 256,
                a.len() == 256,
                all_canonical(a),
                b.wf(),
                self.wf(),
                self.domain == old(self).domain,
                forall|t: int| 0 <= t < i ==> self@[t] == (a[t] * b@[t]) % 3329,
                forall|t: int| i <= t < 256 ==> self@[t] == a[t],
            decreases 256 - i,
        {
            let ghost before = self@;
            assert(canonical(self@[i as int]));
            assert(canonical(b@[i as int]));
            self.coeffs[i] = fq_mul(self.coeffs[i], b.coeffs[i]);
            proof {
                assert forall|t: int| 0 <= t < 256 && t != i implies #[trigger] self@[t]
                    == before[t] by {}
                assert(self@[i as int] == self.coeffs@[i as int] as int);
            }
            i += 1;
        }
        proof {
            assert(self@ =~= spec_pointwise_mul(a, b@));
        }
    }
}

} // verus!
