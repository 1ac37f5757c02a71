//! The number theory behind the modular inverse: the greatest common divisor,
//! primality, and the facts about them that the extended Euclidean algorithm
//! in [`crate::field`] rests on.

use vstd::calc;
use vstd::prelude::*;
use vstd::arithmetic::div_mod::{
    lemma_add_mod_noop, lemma_fundamental_div_mod, lemma_mod_bound, lemma_mod_is_zero,
    lemma_mod_self_0, lemma_mul_mod_noop_right, lemma_small_mod, lemma_sub_mod_noop,
};
use vstd::arithmetic::mul::{lemma_mul_is_associative, lemma_mul_is_distributive_sub_other_way};

verus! {

/// The greatest common divisor, by Euclid's recurrence.
pub open spec fn gcd(a: nat, b: nat) -> nat
    decreases b,
{
    if b == 0 {
        a
    } else {
        gcd(b, a % b)
    }
}

/// Primality of the modulus: no integer strictly between 1 and `p` divides it.
pub open spec fn is_prime(p: int) -> bool {
    p >= 2 && forall|d: int| 1 < d < p ==> #[trigger] (p % d) != 0
}

/// The gcd of two numbers, not both zero, is positive and divides each of
/// them.
pub proof fn lemma_gcd_divides(a: nat, b: nat)
    requires
        a > 0 || b > 0,
    ensures
        gcd(a, b) > 0,
        a % gcd(a, b) == 0,
        b % gcd(a, b) == 0,
    decreases b,
{
    if b == 0 {
        lemma_mod_self_0(a as int);
        lemma_small_mod(0, a);
    } else {
        let q = a as int / b as int;
        let r = a % b;
        lemma_mod_bound(a as int, b as int);
        lemma_gcd_divides(b, r);
        let g = gcd(b, r);
        lemma_fundamental_div_mod(a as int, b as int);
        assert(a == b * q + r);
        lemma_mul_mod_noop_right(q, b as int, g as int);
        assert((q * (b as int)) % (g as int) == 0) by {
            lemma_small_mod(0, g);
        }
        lemma_add_mod_noop(q * (b as int), r as int, g as int);
        assert((q * (b as int) + r) % (g as int) == 0) by {
            lemma_small_mod(0, g);
        }
        assert(b * q == q * (b as int));
    }
}

/// Under a prime modulus, every number with nonzero residue is coprime to the
/// modulus. Together with the contract of `Fp::modinv` this says that the
/// inverse exists for every such element.
pub proof fn lemma_prime_nonzero_coprime(a: nat, p: nat)
    requires
        is_prime(p as int),
        a % p != 0,
    ensures
        gcd(a, p) == 1,
{
    let r = a % p;
    assert(gcd(a, p) == gcd(p, r));
    lemma_mod_bound(a as int, p as int);
    lemma_gcd_divides(p, r);
    let g = gcd(p, r);
    if g > 1 {
        lemma_mod_is_zero(r, g);
        assert(1 < g < p);
        assert((p as int) % (g as int) != 0);
        assert(false);
    }
}

/// One step of the extended Euclidean recurrence preserves the defining
/// congruence of a Bezout coefficient: when `aa` and `bb` are congruent to
/// `x0 * base` and `x1 * base`, the next remainder `aa - q * bb` is congruent
/// to `(x0 - q * x1) * base`.
pub proof fn lemma_euclid_step(p: int, aa: int, bb: int, q: int, x0: int, x1: int, base: int)
    requires
        p >= 2,
        aa % p == (x0 * base) % p,
        bb % p == (x1 * base) % p,
    ensures
        (aa - q * bb) % p == ((x0 - q * x1) * base) % p,
{
    calc! {
        (==)
        (aa - q * bb) % p; {
            lemma_sub_mod_noop(aa, q * bb, p);
        }
        ((aa % p) - ((q * bb) % p)) % p; {
            lemma_mul_mod_noop_right(q, bb, p);
            lemma_mul_mod_noop_right(q, x1 * base, p);
        }
        ((aa % p) - ((q * (x1 * base)) % p)) % p; {
            lemma_mul_is_associative(q, x1, base);
        }
        (((x0 * base) % p) - (((q * x1) * base) % p)) % p; {
            lemma_sub_mod_noop(x0 * base, (q * x1) * base, p);
        }
        ((x0 * base) - ((q * x1) * base)) % p; {
            lemma_mul_is_distributive_sub_other_way(base, x0, q * x1);
        }
        ((x0 - q * x1) * base) % p;
    }
}

} // verus!
