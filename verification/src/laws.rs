//! Algebraic laws of the three operations, stated over the residues that
//! their contracts name.
use vstd::prelude::*;
use vstd::arithmetic::div_mod::{
    lemma_add_mod_noop, lemma_mod_bound, lemma_mul_mod_noop_right, lemma_small_mod,
};
use vstd::arithmetic::mul::{lemma_mul_is_commutative, lemma_mul_is_distributive_add};
use crate::model::{add_mod, mul_mod, sub_mod};

verus! {

/// Multiplication of residues is commutative.
pub proof fn lemma_mul_mod_commutative(m: int, a: int, b: int)
    ensures
        mul_mod(m, a, b) == mul_mod(m, b, a),
{
    lemma_mul_is_commutative(a, b);
}

/// Zero is the right identity of addition.
pub proof fn lemma_add_mod_zero(m: int, a: int)
    requires
        0 <= a < m,
    ensures
        add_mod(m, a, 0) == a,
{
    lemma_small_mod(a as nat, m as nat);
}

/// Subtracting zero changes nothing.
pub proof fn lemma_sub_mod_zero(m: int, a: int)
    requires
        0 <= a < m,
    ensures
        sub_mod(m, a, 0) == a,
{
    lemma_small_mod(a as nat, m as nat);
}

/// One is the right identity of multiplication.
pub proof fn lemma_mul_mod_one(m: int, a: int)
    requires
        0 <= a < m,
    ensures
        mul_mod(m, a, 1) == a,
{
    lemma_small_mod(a as nat, m as nat);
}

/// Every residue lies in `[0, m)`.
pub proof fn lemma_residues_in_range(m: int, a: int, b: int)
    requires
        m > 0,
    ensures
        0 <= add_mod(m, a, b) < m,
        0 <= sub_mod(m, a, b) < m,
        0 <= mul_mod(m, a, b) < m,
{
    lemma_mod_bound(a + b, m);
    lemma_mod_bound(a - b, m);
    lemma_mod_bound(a * b, m);
}

/// Multiplication of residues distributes over their addition.
pub proof fn lemma_mul_mod_distributes(m: int, a: int, b: int, c: int)
    requires
        m > 0,
    ensures
        add_mod(m, mul_mod(m, a, b), mul_mod(m, a, c)) == mul_mod(m, a, add_mod(m, b, c)),
{
    lemma_add_mod_noop(a * b, a * c, m);
    lemma_mul_is_distributive_add(a, b, c);
    lemma_mul_mod_noop_right(a, b + c, m);
}

} // verus!
