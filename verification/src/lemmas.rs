//! Proofs about bit lengths, shifts and the error of the quotient estimate.
//! Nothing here depends on the width of a scalar type.
use vstd::prelude::*;
use vstd::arithmetic::power2::*;
use vstd::arithmetic::div_mod::*;
use vstd::arithmetic::mul::*;
use crate::model::{barrett_mu, bit_length};

verus! {

/// A non-zero `m` lies between the two powers of two that its bit length names.
pub proof fn lemma_bit_length_bounds(m: nat)
    requires
        m > 0,
    ensures
        bit_length(m) >= 1,
        pow2((bit_length(m) - 1) as nat) <= m < pow2(bit_length(m)),
    decreases m,
{
    if m == 1 {
        assert(bit_length(1) == 1 + bit_length(0));
        lemma2_to64();
    } else {
        let h = m / 2;
        lemma_bit_length_bounds(h);
        let k = bit_length(h);
        assert(bit_length(m) == 1 + k);
        lemma_pow2_unfold(k);
        lemma_pow2_unfold(k + 1);
    }
}

/// Powers of two are ordered as their exponents are.
pub proof fn lemma_pow2_monotonic(a: nat, b: nat)
    requires
        a <= b,
    ensures
        pow2(a) <= pow2(b),
{
    if a < b {
        lemma_pow2_strictly_increases(a, b);
    }
}

/// The bit length is the only `k` with `2^(k-1) <= m < 2^k`.
pub proof fn lemma_bit_length_unique(m: nat, k: nat)
    requires
        k >= 1,
        pow2((k - 1) as nat) <= m < pow2(k),
    ensures
        bit_length(m) == k,
{
    lemma_pow2_pos((k - 1) as nat);
    lemma_bit_length_bounds(m);
    let n = bit_length(m);
    if n < k {
        lemma_pow2_monotonic(n, (k - 1) as nat);
    } else if n > k {
        lemma_pow2_monotonic(k, (n - 1) as nat);
    }
}

/// A value below `2^k` has at most `k` bits.
pub proof fn lemma_bit_length_at_most(m: nat, k: nat)
    requires
        m < pow2(k),
    ensures
        bit_length(m) <= k,
{
    if m > 0 {
        lemma_bit_length_bounds(m);
        let n = bit_length(m);
        if n > k {
            lemma_pow2_monotonic(k, (n - 1) as nat);
        }
    }
}

/// Shifting one to the left by `k` places gives `2^k`, in 128 bits.
pub proof fn lemma_one_shl_is_pow2(k: u128)
    requires
        k < 128,
    ensures
        1u128 << k == pow2(k as nat),
    decreases k,
{
    if k == 0 {
        assert(1u128 << 0u128 == 1) by (bit_vector);
        lemma2_to64();
    } else {
        let j: u128 = (k - 1) as u128;
        lemma_one_shl_is_pow2(j);
        assert(1u128 << k == 2 * (1u128 << j)) by (bit_vector)
            requires
                0 < k < 128,
                j == k - 1,
        ;
        lemma_pow2_unfold(k as nat);
    }
}

/// A quotient times its positive divisor is the largest multiple not above `x`.
pub proof fn lemma_div_bracket(x: int, d: int)
    requires
        d > 0,
    ensures
        (x / d) * d <= x < (x / d) * d + d,
{
    lemma_fundamental_div_mod(x, d);
    lemma_mod_bound(x, d);
    lemma_mul_is_commutative(x / d, d);
}

/// The power of two that the first shift of the reduction divides by:
/// `2^(n-2)` for a modulus of `n` bits.
pub open spec fn quarter(m: nat) -> nat {
    pow2((bit_length(m) - 2) as nat)
}

/// What a modulus `m >= 2` of `n` bits gives, in terms of `p = 2^(n-2)`: the
/// place of `m`, the powers of two of the reduction, and the bracket of `mu`.
pub proof fn lemma_modulus_shape(m: nat)
    requires
        2 <= m,
    ensures
        2 <= bit_length(m),
        1 <= quarter(m),
        2 * quarter(m) <= m < 4 * quarter(m),
        pow2(bit_length(m) + 3) == 32 * quarter(m),
        pow2(bit_length(m) + 4) == 64 * quarter(m),
        pow2(bit_length(m) + 5) == 128 * quarter(m),
        pow2(2 * bit_length(m) + 3) == 128 * quarter(m) * quarter(m),
        32 * quarter(m) <= barrett_mu(m) <= 64 * quarter(m),
        barrett_mu(m) * m <= 128 * quarter(m) * quarter(m) < barrett_mu(m) * m + m,
{
    let n = bit_length(m);
    lemma_bit_length_bounds(m);
    lemma2_to64();
    if n == 1 {
        assert(m < 2);
    }
    let k = (n - 2) as nat;
    let p = pow2(k);
    lemma_pow2_pos(k);
    lemma_pow2_adds(k, 1);
    lemma_pow2_adds(k, 2);
    lemma_pow2_adds(k, 5);
    lemma_pow2_adds(k, 6);
    lemma_pow2_adds(k, 7);
    lemma_pow2_adds(k, n + 5);
    assert(pow2((n - 1) as nat) == 2 * p);
    assert(pow2(n) == 4 * p);
    assert(pow2(n + 5) == 128 * p);
    assert(pow2(2 * n + 3) == p * (128 * p));
    assert(p * (128 * p) == 128 * p * p) by (nonlinear_arith);
    let mu = barrett_mu(m);
    lemma_div_bracket(pow2(2 * n + 3) as int, m as int);
    assert(32 * p <= mu <= 64 * p) by (nonlinear_arith)
        requires
            p >= 1,
            2 * p <= m < 4 * p,
            mu * m <= 128 * p * p < mu * m + m,
    ;
}

/// When `mu` fits in `w` bits: exactly for the moduli below `2^(w-4)`, except
/// `2^(w-5)`, whose `mu` is `2^w`.
pub proof fn lemma_mu_fits(m: nat, w: nat)
    requires
        2 <= m,
        w >= 6,
    ensures
        barrett_mu(m) < pow2(w) <==> m < pow2((w - 4) as nat) && m != pow2((w - 5) as nat),
{
    lemma_modulus_shape(m);
    lemma2_to64();
    let n = bit_length(m);
    let p = quarter(m);
    let mu = barrett_mu(m);
    if mu < pow2(w) {
        if n + 3 >= w {
            lemma_pow2_monotonic(w, n + 3);
        }
        lemma_pow2_adds((n - 2) as nat, 2);
        lemma_pow2_monotonic(n, (w - 4) as nat);
        if m == pow2((w - 5) as nat) {
            lemma_pow2_unfold((w - 4) as nat);
            lemma_bit_length_unique(m, (w - 4) as nat);
            lemma_pow2_unfold((w - 5) as nat);
            assert(mu >= 64 * p) by (nonlinear_arith)
                requires
                    m == 2 * p,
                    p >= 1,
                    128 * p * p < mu * m + m,
            ;
            assert(false);
        }
    }
    if m < pow2((w - 4) as nat) && m != pow2((w - 5) as nat) {
        lemma_bit_length_at_most(m, (w - 4) as nat);
        if n + 4 == w {
            lemma_pow2_unfold((w - 5) as nat);
            assert(mu < 64 * p) by (nonlinear_arith)
                requires
                    m > 2 * p,
                    p >= 1,
                    mu * m <= 128 * p * p,
            ;
        } else {
            lemma_pow2_strictly_increases(n + 4, w);
        }
    }
}

/// The error of the quotient estimate. With `p = 2^(n-2)` for a modulus `m` of
/// `n` bits, `mu = floor(128 p^2 / m)`, `t = floor(x / p)` and
/// `q = floor(t mu / 128 p)`, the estimate `q` is the true quotient of `x`
/// by `m` or one less.
pub proof fn lemma_quotient_estimate(x: int, m: int, p: int, mu: int, t: int, q: int)
    requires
        p >= 1,
        2 * p <= m < 4 * p,
        0 <= x < m * m,
        mu * m <= 128 * p * p < mu * m + m,
        t * p <= x < t * p + p,
        q * (128 * p) <= t * mu < q * (128 * p) + 128 * p,
    ensures
        0 <= t < 16 * p,
        0 <= q,
        q * m <= x < q * m + 2 * m,
{
    assert(m * m < 16 * p * p) by (nonlinear_arith)
        requires
            0 < m < 4 * p,
    ;
    assert(0 <= t < 16 * p) by (nonlinear_arith)
        requires
            p >= 1,
            0 <= x < 16 * p * p,
            t * p <= x < t * p + p,
    ;
    assert(0 <= mu) by (nonlinear_arith)
        requires
            m > 0,
            0 <= 128 * p * p < mu * m + m,
    ;
    assert(0 <= q) by (nonlinear_arith)
        requires
            p >= 1,
            t >= 0,
            mu >= 0,
            t * mu < q * (128 * p) + 128 * p,
    ;
    // q m <= x, from q S m <= t mu m <= t N <= x S with S = 128 p, N = 128 p^2.
    assert(q * m <= x) by (nonlinear_arith)
        requires
            p >= 1,
            m > 0,
            t >= 0,
            q >= 0,
            mu * m <= 128 * p * p,
            t * p <= x,
            q * (128 * p) <= t * mu,
    {
        assert((q * (128 * p)) * m <= (t * mu) * m);
        assert(t * (mu * m) <= t * (128 * p * p));
        assert((t * p) * (128 * p) <= x * (128 * p));
        assert((q * m) * (128 * p) <= x * (128 * p));
    }
    // x < (q + 2) m, from x S < (t + 1) N < t (mu + 1) m + N and t m + N <= S m.
    assert(x < q * m + 2 * m) by (nonlinear_arith)
        requires
            p >= 1,
            2 * p <= m < 4 * p,
            0 <= t < 16 * p,
            q >= 0,
            mu >= 0,
            128 * p * p < mu * m + m,
            x < t * p + p,
            t * mu < q * (128 * p) + 128 * p,
    {
        assert(x * (128 * p) < (t + 1) * (128 * p * p));
        assert(t * (128 * p * p) <= t * (mu * m + m));
        assert((t * mu) * m <= (q * (128 * p) + 128 * p - 1) * m);
        assert(t * m <= 16 * p * m);
        assert(128 * p * p <= 64 * p * m);
        assert(x * (128 * p) < (q * m + 2 * m) * (128 * p));
    }
}

/// A value that differs from `x` by a multiple of `m` and lies in `[0, m)` is
/// the residue of `x`.
pub proof fn lemma_residue(x: int, m: int, q: int, r: int)
    requires
        0 <= r < m,
        x - q * m == r,
    ensures
        r == x % m,
{
    lemma_fundamental_div_mod_converse_mod(x, m, q, r);
}

} // verus!
