//! The algebraic laws of the engine, stated over the model in
//! [`crate::modular`] and proved once for every modulus and every raw
//! representation. Together with the contracts of the operators in
//! [`crate::field`] — each operator stores exactly its model's value — these
//! are the field axioms the element type obeys.

use vstd::calc;
use vstd::prelude::*;
use vstd::arithmetic::div_mod::{
    lemma_add_mod_noop_right, lemma_mod_bound, lemma_mod_twice, lemma_small_mod,
    lemma_mul_mod_noop_left, lemma_mul_mod_noop_right,
};
use vstd::arithmetic::mul::{lemma_mul_is_associative, lemma_mul_is_commutative};
use crate::modular::{add_mod, congruent, mul_mod, neg_mod, reduce_mod, sub_mod};

verus! {

/// Closure and reduction: the result of every addition, subtraction and
/// multiplication is the canonical representative, in `[0, p)`.
pub proof fn lemma_closure(p: int, a: int, b: int)
    requires
        p >= 2,
    ensures
        0 <= add_mod(p, a, b) < p,
        0 <= sub_mod(p, a, b) < p,
        0 <= mul_mod(p, a, b) < p,
{
    lemma_mod_bound(a + b, p);
    lemma_mod_bound(a - b, p);
    lemma_mod_bound(a * b, p);
}

/// Additive identity and inverse: `a + n(0) == a`, and `a + (-a) == n(0)`,
/// under field equality.
pub proof fn lemma_additive_identity_and_inverse(p: int, a: int)
    requires
        p >= 2,
    ensures
        congruent(p, add_mod(p, a, reduce_mod(p, 0)), a),
        congruent(p, add_mod(p, a, neg_mod(p, a)), reduce_mod(p, 0)),
{
    lemma_small_mod(0, p as nat);
    lemma_mod_twice(a, p);
    lemma_add_mod_noop_right(a, 0 - a, p);
}

/// Multiplicative identity: `a * n(1) == a` under field equality.
pub proof fn lemma_multiplicative_identity(p: int, a: int)
    requires
        p >= 2,
    ensures
        congruent(p, mul_mod(p, a, reduce_mod(p, 1)), a),
{
    lemma_small_mod(1, p as nat);
    lemma_mod_twice(a, p);
}

/// Inverse correctness, the identity half: an inverse `x` of `a` — what
/// `modinv` returns whenever it succeeds — multiplies back to the identity,
/// `a * x == n(1)` under field equality. The existence half, that `modinv`
/// does succeed on every nonzero residue under a prime modulus, is
/// [`crate::euclid::lemma_prime_nonzero_coprime`] read through `modinv`'s
/// contract.
pub proof fn lemma_inverse_multiplies_to_identity(p: int, a: int, x: int)
    requires
        p >= 2,
        mul_mod(p, a, x) == 1,
    ensures
        congruent(p, mul_mod(p, a, x), reduce_mod(p, 1)),
{
    lemma_small_mod(1, p as nat);
    lemma_mod_twice(1, p);
}

/// Division consistency: a quotient congruent to `a * i`, where `i` is any
/// inverse of `b`, multiplies back to the dividend: `(a / b) * b == a` under
/// field equality.
pub proof fn lemma_division_consistency(p: int, a: int, b: int, i: int)
    requires
        p >= 2,
        mul_mod(p, b, i) == 1,
    ensures
        mul_mod(p, mul_mod(p, a, i), b) == reduce_mod(p, a),
        congruent(p, mul_mod(p, mul_mod(p, a, i), b), a),
{
    calc! {
        (==)
        (((a * i) % p) * b) % p; {
            lemma_mul_mod_noop_left(a * i, b, p);
        }
        ((a * i) * b) % p; {
            lemma_mul_is_associative(a, i, b);
        }
        (a * (i * b)) % p; {
            lemma_mul_mod_noop_right(a, i * b, p);
            lemma_mul_is_commutative(i, b);
            lemma_mul_mod_noop_right(a, b * i, p);
        }
        (a * ((b * i) % p)) % p; {}
        (a * 1) % p; {}
        a % p;
    }
    lemma_mod_twice(a, p);
}

/// Congruence-respecting equality: raw integers congruent modulo `p` wrap to
/// equal elements, and construct-and-reduce sends them to equal elements,
/// however the stored values differ.
pub proof fn lemma_eq_respects_congruence(p: int, x: int, y: int)
    requires
        p >= 2,
        x % p == y % p,
    ensures
        congruent(p, x, y),
        congruent(p, reduce_mod(p, x), reduce_mod(p, y)),
{
    lemma_mod_twice(x, p);
    lemma_mod_twice(y, p);
}

} // verus!
