//! The field element type and its operators.

use vstd::prelude::*;
use vstd::arithmetic::div_mod::{
    lemma_fundamental_div_mod, lemma_mod_add_multiples_vanish, lemma_mod_bound, lemma_mod_self_0,
    lemma_mul_mod_noop_left, lemma_small_mod, lemma_sub_mod_noop, lemma_sub_mod_noop_right,
};
use vstd::arithmetic::mul::{lemma_mul_is_commutative, lemma_mul_upper_bound};
use crate::euclid::{gcd, lemma_euclid_step};
use crate::laws::lemma_division_consistency;
use crate::modular::{add_mod, congruent, mul_mod, neg_mod, reduce_mod, sub_mod};

verus! {

/// An element of the prime field of the `P` residue classes, stored as one
/// raw `u64`. The stored integer is not required to lie in `[0, P)`: a raw
/// value may be wrapped directly, every operator reduces its own result, and
/// equality compares residues. `P` is trusted to be prime and at least 2; it
/// is fixed once in the type and shared read-only by every operation.
#[derive(Debug, Clone, Copy)]
pub struct Fp<const P: u64>(pub u64);

/// The one failure of the engine: the element whose inverse was asked for has
/// none, because its residue is zero or the modulus is not prime. The payload
/// carries the offending stored value and the modulus.
#[derive(Debug, Clone, Copy, PartialEq, Eq, Structural)]
pub enum FieldError {
    InverseUndefined { value: u64, modulus: u64 },
}

impl<const P: u64> Fp<P> {
    /// Construct-and-reduce: wraps `value mod P`, the canonical
    /// representative of its residue class.
    pub fn n(value: u64) -> (r: Self)
        requires
            P >= 2,
        ensures
            r.0 == reduce_mod(P as int, value as int),
            r.0 < P,
    {
        Fp(value % P)
    }

    /// Addition: the reduced sum of the stored integers, computed in a wider
    /// intermediate so that unreduced operands cannot overflow.
    pub fn add(self, rhs: Self) -> (r: Self)
        requires
            P >= 2,
        ensures
            r.0 == add_mod(P as int, self.0 as int, rhs.0 as int),
            r.0 < P,
    {
        proof {
            lemma_mod_bound(self.0 + rhs.0, P as int);
        }
        Fp(((self.0 as u128 + rhs.0 as u128) % (P as u128)) as u64)
    }

    /// Subtraction: the reduced difference. Both operands are reduced first
    /// and one modulus is added, a closed-form adjustment whose cost does not
    /// depend on how far the operands are from canonical.
    pub fn sub(self, rhs: Self) -> (r: Self)
        requires
            P >= 2,
        ensures
            r.0 == sub_mod(P as int, self.0 as int, rhs.0 as int),
            r.0 < P,
    {
        proof {
            lemma_mod_add_multiples_vanish(
                (self.0 as int % P as int) - (rhs.0 as int % P as int),
                P as int,
            );
            lemma_sub_mod_noop(self.0 as int, rhs.0 as int, P as int);
            lemma_mod_bound(self.0 - rhs.0, P as int);
        }
        Fp((((self.0 % P) as u128 + P as u128 - (rhs.0 % P) as u128) % (P as u128)) as u64)
    }

    /// Multiplication: the reduced product of the stored integers, computed
    /// in a double-width intermediate so that large operands cannot overflow.
    pub fn mul(self, rhs: Self) -> (r: Self)
        requires
            P >= 2,
        ensures
            r.0 == mul_mod(P as int, self.0 as int, rhs.0 as int),
            r.0 < P,
    {
        proof {
            lemma_mul_upper_bound(self.0 as int, u64::MAX as int, rhs.0 as int, u64::MAX as int);
            lemma_mod_bound(self.0 * rhs.0, P as int);
        }
        Fp(((self.0 as u128 * rhs.0 as u128) % (P as u128)) as u64)
    }

    /// Negation: the canonical representative of `-self`, the same element
    /// that subtracting `self` from zero yields.
    pub fn neg(self) -> (r: Self)
        requires
            P >= 2,
        ensures
            r.0 == neg_mod(P as int, self.0 as int),
            r.0 < P,
    {
        proof {
            lemma_small_mod(0, P as nat);
            lemma_mod_add_multiples_vanish(0 - (self.0 as int % P as int), P as int);
            lemma_sub_mod_noop(0, self.0 as int, P as int);
            lemma_mod_bound(0 - self.0 as int, P as int);
        }
        Fp((P - self.0 % P) % P)
    }

    /// The modular inverse, by the extended Euclidean algorithm. Succeeds
    /// with the canonical inverse exactly when the stored value and the
    /// modulus are coprime — always, for a genuine prime modulus and a
    /// nonzero residue — and reports `InverseUndefined` otherwise.
    ///
    /// The Bezout coefficient is tracked as its residue: only its value
    /// modulo `P` reaches the result, so each update is reduced and the
    /// coefficients never leave `[0, P)`.
    pub fn modinv(&self) -> (r: Result<Self, FieldError>)
        requires
            P >= 2,
        ensures
            match r {
                Ok(x) => gcd(self.0 as nat, P as nat) == 1 && x.0 < P && mul_mod(
                    P as int,
                    self.0 as int,
                    x.0 as int,
                ) == 1,
                Err(e) => gcd(self.0 as nat, P as nat) != 1 && e == (FieldError::InverseUndefined {
                    value: self.0,
                    modulus: P,
                }),
            },
    {
        let mut a0: u64 = self.0;
        let mut b0: u64 = P;
        let mut x0: u64 = 1;
        let mut x1: u64 = 0;
        proof {
            lemma_mod_self_0(P as int);
            lemma_small_mod(0, P as nat);
        }
        while b0 != 0
            invariant
                P >= 2,
                x0 < P,
                x1 < P,
                gcd(a0 as nat, b0 as nat) == gcd(self.0 as nat, P as nat),
                a0 as int % (P as int) == (x0 as int * self.0 as int) % (P as int),
                b0 as int % (P as int) == (x1 as int * self.0 as int) % (P as int),
            decreases b0,
        {
            let q: u64 = a0 / b0;
            let r0: u64 = a0 % b0;
            proof {
                lemma_mul_upper_bound(q as int, u64::MAX as int, x1 as int, u64::MAX as int);
                lemma_mod_bound(q * x1, P as int);
            }
            let t: u64 = ((q as u128 * x1 as u128) % (P as u128)) as u64;
            let x2: u64 = ((x0 as u128 + P as u128 - t as u128) % (P as u128)) as u64;
            proof {
                lemma_mod_bound(x0 + P - t, P as int);
                assert(gcd(a0 as nat, b0 as nat) == gcd(b0 as nat, r0 as nat));
                lemma_fundamental_div_mod(a0 as int, b0 as int);
                lemma_mul_is_commutative(b0 as int, q as int);
                assert(r0 == a0 - q * b0);
                lemma_mod_add_multiples_vanish(x0 as int - t as int, P as int);
                lemma_sub_mod_noop_right(x0 as int, q as int * x1 as int, P as int);
                assert(x2 == (x0 as int - q as int * x1 as int) % (P as int));
                lemma_euclid_step(
                    P as int,
                    a0 as int,
                    b0 as int,
                    q as int,
                    x0 as int,
                    x1 as int,
                    self.0 as int,
                );
                lemma_mul_mod_noop_left(
                    x0 as int - q as int * x1 as int,
                    self.0 as int,
                    P as int,
                );
                lemma_mul_mod_noop_left(x2 as int, self.0 as int, P as int);
                lemma_small_mod(x2 as nat, P as nat);
            }
            a0 = b0;
            b0 = r0;
            x0 = x1;
            x1 = x2;
        }
        if a0 == 1 {
            proof {
                lemma_small_mod(1, P as nat);
                lemma_mul_is_commutative(x0 as int, self.0 as int);
            }
            Ok(Fp(x0))
        } else {
            Err(FieldError::InverseUndefined { value: self.0, modulus: P })
        }
    }

    /// Division: multiplication by the inverse of the divisor. Succeeds
    /// exactly when the divisor is invertible; the quotient is pinned by
    /// multiplying back to the dividend's residue.
    pub fn div(self, rhs: Self) -> (r: Result<Self, FieldError>)
        requires
            P >= 2,
        ensures
            match r {
                Ok(x) => gcd(rhs.0 as nat, P as nat) == 1 && x.0 < P && mul_mod(
                    P as int,
                    x.0 as int,
                    rhs.0 as int,
                ) == reduce_mod(P as int, self.0 as int),
                Err(e) => gcd(rhs.0 as nat, P as nat) != 1 && e == (FieldError::InverseUndefined {
                    value: rhs.0,
                    modulus: P,
                }),
            },
    {
        match rhs.modinv() {
            Ok(inv) => {
                proof {
                    lemma_division_consistency(
                        P as int,
                        self.0 as int,
                        rhs.0 as int,
                        inv.0 as int,
                    );
                }
                Ok(self.mul(inv))
            },
            Err(e) => Err(e),
        }
    }

    /// In-place addition: the assignment variant of `add`.
    pub fn add_assign(&mut self, rhs: Self)
        requires
            P >= 2,
        ensures
            final(self).0 == add_mod(P as int, old(self).0 as int, rhs.0 as int),
            final(self).0 < P,
    {
        *self = (*self).add(rhs);
    }

    /// In-place subtraction: the assignment variant of `sub`.
    pub fn sub_assign(&mut self, rhs: Self)
        requires
            P >= 2,
        ensures
            final(self).0 == sub_mod(P as int, old(self).0 as int, rhs.0 as int),
            final(self).0 < P,
    {
        *self = (*self).sub(rhs);
    }

    /// In-place multiplication: the assignment variant of `mul`.
    pub fn mul_assign(&mut self, rhs: Self)
        requires
            P >= 2,
        ensures
            final(self).0 == mul_mod(P as int, old(self).0 as int, rhs.0 as int),
            final(self).0 < P,
    {
        *self = (*self).mul(rhs);
    }

    /// In-place division: the assignment variant of `div`. When the divisor
    /// has no inverse the receiver is left unchanged and the error is
    /// returned.
    pub fn div_assign(&mut self, rhs: Self) -> (r: Result<(), FieldError>)
        requires
            P >= 2,
        ensures
            match r {
                Ok(_) => gcd(rhs.0 as nat, P as nat) == 1 && final(self).0 < P && mul_mod(
                    P as int,
                    final(self).0 as int,
                    rhs.0 as int,
                ) == reduce_mod(P as int, old(self).0 as int),
                Err(e) => gcd(rhs.0 as nat, P as nat) != 1 && *final(self) == *old(self) && e
                    == (FieldError::InverseUndefined { value: rhs.0, modulus: P }),
            },
    {
        match (*self).div(rhs) {
            Ok(x) => {
                *self = x;
                Ok(())
            },
            Err(e) => Err(e),
        }
    }
}

impl<const P: u64> vstd::std_specs::cmp::PartialEqSpecImpl for Fp<P> {
    open spec fn obeys_eq_spec() -> bool {
        true
    }

    open spec fn eq_spec(&self, other: &Self) -> bool {
        if P == 0 {
            self.0 == other.0
        } else {
            congruent(P as int, self.0 as int, other.0 as int)
        }
    }
}

impl<const P: u64> PartialEq for Fp<P> {
    /// Congruence equality: elements are equal exactly when their stored
    /// integers have the same residue, reduced or not. (A modulus of zero
    /// names no residue class, so raw equality stands in for that vacuous
    /// case; a field's modulus is at least 2.)
    fn eq(&self, other: &Self) -> (r: bool) {
        if P == 0 {
            self.0 == other.0
        } else {
            self.0 % P == other.0 % P
        }
    }
}

impl<const P: u64> Eq for Fp<P> {}

impl<const P: u64> Default for Fp<P> {
    /// The element with stored value zero: the additive identity.
    fn default() -> (r: Self)
        ensures
            r.0 == 0,
    {
        Fp(0)
    }
}

} // verus!
