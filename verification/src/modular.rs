//! The mathematical model of the field operators: what each one stores, as a
//! function of the raw representations of its operands.
//!
//! Ghost `%` is Euclidean, so for `p > 0` each of these functions yields the
//! canonical representative in `[0, p)` whatever the sign or magnitude of its
//! arguments.

use vstd::prelude::*;

verus! {

/// The canonical representative of `x` modulo `p`: what the constructor `n`
/// stores.
pub open spec fn reduce_mod(p: int, x: int) -> int {
    x % p
}

/// What addition stores: the reduced sum of the raw representations.
pub open spec fn add_mod(p: int, a: int, b: int) -> int {
    (a + b) % p
}

/// What subtraction stores: the reduced difference of the raw representations.
pub open spec fn sub_mod(p: int, a: int, b: int) -> int {
    (a - b) % p
}

/// What multiplication stores: the reduced product of the raw representations.
pub open spec fn mul_mod(p: int, a: int, b: int) -> int {
    (a * b) % p
}

/// What negation stores: the canonical representative of `-a`.
pub open spec fn neg_mod(p: int, a: int) -> int {
    (0 - a) % p
}

/// Two raw representations denote the same field element exactly when they
/// are congruent modulo `p`. Equality is the only operation guaranteed to see
/// through non-canonical representations.
pub open spec fn congruent(p: int, a: int, b: int) -> bool {
    a % p == b % p
}

} // verus!
