//! The mathematical model: bit lengths, the Barrett constant and the residues
//! that the operations return.
use vstd::prelude::*;
use vstd::arithmetic::power2::pow2;

verus! {

/// Position of the highest set bit of `m`, counted from one; zero for zero.
pub open spec fn bit_length(m: nat) -> nat
    decreases m,
{
    if m == 0 {
        0
    } else {
        1 + bit_length(m / 2)
    }
}

/// The Barrett constant of `m` before any narrowing: `floor(2^(2n+3) / m)`
/// where `n` is the bit length of `m`.
pub open spec fn barrett_mu(m: nat) -> nat
    recommends
        m > 0,
{
    pow2(2 * bit_length(m) + 3) / m
}

/// The canonical residue of `a + b` modulo `m`.
pub open spec fn add_mod(m: int, a: int, b: int) -> int {
    (a + b) % m
}

/// The canonical residue of `a - b` modulo `m`.
pub open spec fn sub_mod(m: int, a: int, b: int) -> int {
    (a - b) % m
}

/// The canonical residue of `a * b` modulo `m`.
pub open spec fn mul_mod(m: int, a: int, b: int) -> int {
    (a * b) % m
}

/// The constants of one backend, as mathematical integers.
pub struct BarrettParams {
    /// The modulus `m`.
    pub modulus: nat,
    /// The bit length `n` of the modulus.
    pub modulus_bits: nat,
    /// The reciprocal-like constant `mu`.
    pub barrett_constant: nat,
    /// The parameter `alpha`.
    pub barrett_alpha: nat,
}

impl BarrettParams {
    /// The constants that belong to the modulus `m`: its bit length `n`,
    /// `mu = floor(2^(2n+3) / m)` and `alpha = n + 3`.
    pub open spec fn of(m: nat) -> BarrettParams {
        BarrettParams {
            modulus: m,
            modulus_bits: bit_length(m),
            barrett_constant: barrett_mu(m),
            barrett_alpha: bit_length(m) + 3,
        }
    }

    /// The constants of `m` as a scalar type with `count` values stores them:
    /// `mu` is kept modulo `count`.
    pub open spec fn narrowed(m: nat, count: nat) -> BarrettParams {
        BarrettParams {
            modulus: m,
            modulus_bits: bit_length(m),
            barrett_constant: barrett_mu(m) % count,
            barrett_alpha: bit_length(m) + 3,
        }
    }
}

} // verus!
