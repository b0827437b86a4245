//! Residues in `u32`, with `u64` as the doubled-width type.
use vstd::prelude::*;
use vstd::arithmetic::div_mod::{lemma_basic_div, lemma_small_mod};
use vstd::arithmetic::power2::{lemma2_to64, lemma_pow2_pos, pow2};
use vstd::bits::{lemma_u32_shr_is_div, lemma_u64_shr_is_div};
use vstd::std_specs::bits::{axiom_u32_leading_zeros, u32_leading_zeros};
use crate::cast::{u128_to_u32, u32_to_u128, u32_to_u64, u64_to_u32};
use crate::lemmas::{
    lemma_bit_length_at_most, lemma_bit_length_unique, lemma_div_bracket, lemma_modulus_shape,
    lemma_mu_fits, lemma_one_shl_is_pow2, lemma_quotient_estimate, lemma_residue,
};
use crate::laws::{lemma_mul_mod_commutative, lemma_mul_mod_one};
use crate::model::{add_mod, barrett_mu, bit_length, mul_mod, sub_mod, BarrettParams};

verus! {

/// Number of bits of the scalar type.
pub const SCALAR_BITS: usize = 32;

/// Number of values of the scalar type, `2^32`.
pub const SCALAR_COUNT: u64 = 0x1_0000_0000;

/// Exclusive upper bound of the moduli whose constants can be derived: the
/// numerator `2^(2n+3)` must fit in the doubled-width type.
pub const MODULUS_LIMIT: u32 = 0x4000_0000;

/// Largest modulus for which the sum of two residues fits in the scalar type.
pub const ADDITIVE_LIMIT: u32 = 0x8000_0000;

/// Exclusive upper bound of the moduli on which multiplication is exact.
pub const SUPPORTED_LIMIT: u32 = 0x1000_0000;

/// The one modulus below `SUPPORTED_LIMIT` on which multiplication is
/// not exact: its constant `mu` is `2^32`.
pub const UNSUPPORTED_POWER: u32 = 0x0800_0000;

/// Multiplication is exact for `m`: its constants can be derived, and `mu`
/// fits in the scalar type.
pub open spec fn supported_modulus(m: nat) -> bool {
    1 <= m < MODULUS_LIMIT && barrett_mu(m) < SCALAR_COUNT
}

/// The constants of `m` as a backend stores them, `mu` narrowed to 32 bits.
pub open spec fn stored_params(m: nat) -> BarrettParams {
    BarrettParams::narrowed(m, SCALAR_COUNT as nat)
}

/// The constants are the true ones of a supported modulus.
pub open spec fn exact_params(p: BarrettParams) -> bool {
    supported_modulus(p.modulus) && p == BarrettParams::of(p.modulus)
}

/// The leading zeros of a 32-bit value and its bit length add up to 32.
pub proof fn lemma_leading_zeros_bit_length(i: u32)
    ensures
        u32_leading_zeros(i) + bit_length(i as nat) == 32,
{
    axiom_u32_leading_zeros(i);
    lemma2_to64();
    if i != 0 {
        let z: u32 = u32_leading_zeros(i);
        let k: u32 = (32 - z) as u32;
        let j: u32 = (31 - z) as u32;
        let top: u32 = i >> j;
        assert(top >= 1) by (bit_vector)
            requires
                top & 1u32 != 0u32,
        ;
        lemma_u32_shr_is_div(i, j);
        lemma_pow2_pos(j as nat);
        lemma_div_bracket(i as int, pow2(j as nat) as int);
        assert(pow2(j as nat) <= i) by (nonlinear_arith)
            requires
                (i as int / pow2(j as nat) as int) * pow2(j as nat) <= i,
                i as int / pow2(j as nat) as int >= 1,
                pow2(j as nat) > 0,
        ;
        if k < 32 {
            lemma_u32_shr_is_div(i, k);
            lemma_pow2_pos(k as nat);
            lemma_div_bracket(i as int, pow2(k as nat) as int);
        }
        lemma_bit_length_unique(i as nat, k as nat);
    }
}

/// The supported moduli are those from 1 up to `2^28`, except `2^27`.
pub proof fn lemma_supported_range(m: nat)
    ensures
        supported_modulus(m) <==> 1 <= m < SUPPORTED_LIMIT && m != UNSUPPORTED_POWER,
{
    lemma2_to64();
    if 2 <= m {
        lemma_mu_fits(m, 32);
    } else if m == 1 {
        lemma_bit_length_unique(1, 1);
    }
}

/// The stored constants of `m` are exact if and only if `m` is supported.
pub proof fn lemma_stored_exact(m: nat)
    ensures
        exact_params(stored_params(m)) <==> supported_modulus(m),
{
    if supported_modulus(m) {
        lemma_small_mod(barrett_mu(m), SCALAR_COUNT as nat);
    }
}

/// A Barrett backend over `u32`: four accessors to the constants of a fixed
/// modulus, and the arithmetic that is built on them.
pub trait BarrettBackend32 {
    /// The constants that the accessors return.
    spec fn params(&self) -> BarrettParams;

    /// The modulus.
    fn modulus(&self) -> (m: u32)
        ensures
            m == self.params().modulus,
    ;

    /// The bit length of the modulus.
    fn modulus_bits(&self) -> (n: usize)
        ensures
            n == self.params().modulus_bits,
    ;

    /// The constant `mu`.
    fn barrett_constant(&self) -> (mu: u32)
        ensures
            mu == self.params().barrett_constant,
    ;

    /// The parameter `alpha`.
    fn barrett_alpha(&self) -> (alpha: usize)
        ensures
            alpha == self.params().barrett_alpha,
    ;

    /// Derives the constants of a modulus: its bit length `n`, from which
    /// `alpha = n + 3` follows, and `mu = floor(2^(2n+3) / modulus)`, of which
    /// the low 32 bits are returned.
    fn precompute_alpha_and_barrett_constant(modulus: u32) -> (r: (usize, u32))
        requires
            1 <= modulus < MODULUS_LIMIT,
        ensures
            r.0 == stored_params(modulus as nat).modulus_bits,
            r.1 == stored_params(modulus as nat).barrett_constant,
    {
        proof {
            lemma_leading_zeros_bit_length(modulus);
            lemma2_to64();
            lemma_bit_length_at_most(modulus as nat, 30);
        }
        let modulus_bits: usize = SCALAR_BITS - modulus.leading_zeros() as usize;
        proof {
            lemma_one_shl_is_pow2((modulus_bits * 2 + 3) as u128);
        }
        let mu: u128 = (1u128 << (modulus_bits * 2 + 3)) / u32_to_u128(modulus);
        (modulus_bits, u128_to_u32(mu))
    }

    /// Sum of two residues, reduced by at most one subtraction.
    fn add_mod_fast(&self, a: u32, b: u32) -> (c: u32)
        requires
            self.params().modulus <= ADDITIVE_LIMIT,
            a < self.params().modulus,
            b < self.params().modulus,
        ensures
            c == add_mod(self.params().modulus as int, a as int, b as int),
            c < self.params().modulus,
            b == 0 ==> c == a,
    {
        let m: u32 = self.modulus();
        let mut c: u32 = a + b;
        if c >= m {
            c -= m;
            proof {
                lemma_residue(a + b, m as int, 1, c as int);
            }
        } else {
            proof {
                lemma_residue(a + b, m as int, 0, c as int);
            }
        }
        c
    }

    /// Difference of two residues; the modulus is added first where the plain
    /// difference would be negative.
    fn sub_mod_fast(&self, a: u32, b: u32) -> (c: u32)
        requires
            self.params().modulus <= ADDITIVE_LIMIT,
            a < self.params().modulus,
            b < self.params().modulus,
        ensures
            c == sub_mod(self.params().modulus as int, a as int, b as int),
            c < self.params().modulus,
            b == 0 ==> c == a,
    {
        let m: u32 = self.modulus();
        if a >= b {
            proof {
                lemma_residue(a - b, m as int, 0, a - b);
            }
            a - b
        } else {
            proof {
                lemma_residue(a - b, m as int, -1, a + m - b);
            }
            (a + m) - b
        }
    }

    /// Product of two residues, reduced with the precomputed constant in place
    /// of a division: the quotient of the product by the modulus is estimated
    /// from two shifts and one multiplication by `mu`, and the estimate is the
    /// true quotient or one less.
    fn mul_mod_fast(&self, a: u32, b: u32) -> (c: u32)
        requires
            exact_params(self.params()),
            a < self.params().modulus,
            b < self.params().modulus,
        ensures
            c == mul_mod(self.params().modulus as int, a as int, b as int),
            c < self.params().modulus,
            c == mul_mod(self.params().modulus as int, b as int, a as int),
            b == 1 ==> c == a,
    {
        let m: u32 = self.modulus();
        let n: usize = self.modulus_bits();
        let mu: u32 = self.barrett_constant();
        let alpha: usize = self.barrett_alpha();
        // A modulus of one bit has the single residue 0; nothing is shifted out.
        let shift: usize = if n >= 2 {
            n - 2
        } else {
            0
        };
        let ghost p: int = pow2(shift as nat) as int;
        proof {
            lemma_mul_mod_commutative(m as int, a as int, b as int);
            lemma_mul_mod_one(m as int, a as int);
            lemma_supported_range(m as nat);
            lemma2_to64();
            lemma2_to64();
            lemma_bit_length_at_most(m as nat, 28);
            if m >= 2 {
                lemma_modulus_shape(m as nat);
                assert(a * b < m * m) by (nonlinear_arith)
                    requires
                        0 <= a < m,
                        0 <= b < m,
                ;
                assert(m * m < 16 * p * p && 16 * p * p < 0x1_0000_0000_0000_0000) by (nonlinear_arith)
                    requires
                        0 < m < 4 * p,
                        p < 0x0800_0000,
                ;
            } else {
                lemma_bit_length_unique(1, 1);
                assert(a * b == 0);
            }
        }
        // The exact product.
        let ab: u64 = u32_to_u64(a) * u32_to_u64(b);
        // ab / 2^(n - 2)
        let tmp: u64 = ab >> shift;
        proof {
            lemma_u64_shr_is_div(ab, shift as u64);
            if m >= 2 {
                lemma_div_bracket(ab as int, p);
                assert(tmp * mu < 0x1_0000_0000_0000_0000) by (nonlinear_arith)
                    requires
                        tmp * p <= ab,
                        ab < 16 * p * p,
                        1 <= p < 0x0800_0000,
                        0 <= mu < 0x1_0000_0000,
                ;
            } else {
                assert(tmp == 0);
            }
        }
        // The quotient estimate, (tmp * mu) / 2^(alpha + 2).
        let q: u64 = (tmp * u32_to_u64(mu)) >> (alpha + 2);
        proof {
            lemma_u64_shr_is_div((tmp * mu) as u64, (alpha + 2) as u64);
            if m >= 2 {
                lemma_div_bracket(tmp * mu, 128 * p);
                lemma_quotient_estimate(ab as int, m as int, p, mu as int, tmp as int, q as int);
            } else {
                lemma_basic_div(0, pow2((alpha + 2) as nat) as int);
                assert(q * m == 0);
            }
        }
        // ab - q * m, which is below 2 m.
        let tmp2: u64 = q * u32_to_u64(m);
        let mut res: u32 = u64_to_u32(ab - tmp2);
        if res >= m {
            res -= m;
            proof {
                assert(a * b - (q + 1) * m == res) by (nonlinear_arith)
                    requires
                        a * b - q * m - m == res,
                ;
                lemma_residue(a * b, m as int, q + 1, res as int);
            }
        } else {
            proof {
                lemma_residue(a * b, m as int, q as int, res as int);
            }
        }
        res
    }
}

/// A modulus in `u32` together with the constants derived from it. The
/// constants are computed once, by `new`, and never change.
#[derive(Clone, Copy, Debug)]
pub struct BarrettModulus32 {
    modulus: u32,
    modulus_bits: usize,
    barrett_constant: u32,
    barrett_alpha: usize,
}

impl BarrettModulus32 {
    /// The fields are the constants derived from the modulus.
    #[verifier::type_invariant]
    spec fn derived(self) -> bool {
        &&& 1 <= self.modulus < MODULUS_LIMIT
        &&& self.params() == stored_params(self.modulus as nat)
    }

    /// Derives the constants of `modulus`. The result is `None` for zero and
    /// for a modulus so large that the constants cannot be derived.
    pub fn new(modulus: u32) -> (r: Option<BarrettModulus32>)
        ensures
            r.is_some() <==> 1 <= modulus < MODULUS_LIMIT,
            r matches Some(backend) ==> backend.params() == stored_params(modulus as nat),
    {
        if modulus < 1 || modulus >= MODULUS_LIMIT {
            return None;
        }
        let (modulus_bits, mu) = <BarrettModulus32 as BarrettBackend32>::precompute_alpha_and_barrett_constant(
            modulus,
        );
        proof {
            lemma2_to64();
            lemma_bit_length_at_most(modulus as nat, 30);
        }
        Some(
            BarrettModulus32 {
                modulus,
                modulus_bits,
                barrett_constant: mu,
                barrett_alpha: modulus_bits + 3,
            },
        )
    }

    /// Whether multiplication is exact on this backend: whether the constant
    /// `mu` of its modulus was stored without loss.
    pub fn is_exact(&self) -> (r: bool)
        ensures
            r == exact_params(self.params()),
            r == (self.params().modulus < SUPPORTED_LIMIT && self.params().modulus
                != UNSUPPORTED_POWER),
    {
        proof {
            use_type_invariant(self);
            lemma_supported_range(self.modulus as nat);
            lemma_stored_exact(self.modulus as nat);
        }
        self.modulus < SUPPORTED_LIMIT && self.modulus != UNSUPPORTED_POWER
    }
}

impl BarrettBackend32 for BarrettModulus32 {
    closed spec fn params(&self) -> BarrettParams {
        BarrettParams {
            modulus: self.modulus as nat,
            modulus_bits: self.modulus_bits as nat,
            barrett_constant: self.barrett_constant as nat,
            barrett_alpha: self.barrett_alpha as nat,
        }
    }

    fn modulus(&self) -> (m: u32)
        ensures
            1 <= m < MODULUS_LIMIT,
    {
        proof {
            use_type_invariant(self);
        }
        self.modulus
    }

    fn modulus_bits(&self) -> (n: usize) {
        self.modulus_bits
    }

    fn barrett_constant(&self) -> (mu: u32) {
        self.barrett_constant
    }

    fn barrett_alpha(&self) -> (alpha: usize) {
        self.barrett_alpha
    }
}

} // verus!
