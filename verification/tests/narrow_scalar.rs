use barrett::{BarrettBackend32, BarrettModulus32};

struct Generator32 {
    state: u64,
}

impl Generator32 {
    fn next(&mut self) -> u64 {
        self.state ^= self.state >> 12;
        self.state ^= self.state << 25;
        self.state ^= self.state >> 27;
        self.state.wrapping_mul(0x2545_F491_4F6C_DD1D)
    }

    fn below(&mut self, m: u32) -> u32 {
        (((self.next() >> 32) * (m as u64)) >> 32) as u32
    }
}

fn backend32(modulus: u32) -> BarrettModulus32 {
    BarrettModulus32::new(modulus).expect("the constants can be derived")
}

fn check_pair32(b: &BarrettModulus32, m: u32, x: u32, y: u32, with_mul: bool) {
    let (wx, wy, wm) = (x as u64, y as u64, m as u64);
    assert_eq!(b.add_mod_fast(x, y) as u64, (wx + wy) % wm);
    assert_eq!(b.sub_mod_fast(x, y) as u64, (wx + wm - wy) % wm);
    if with_mul {
        assert_eq!(b.mul_mod_fast(x, y) as u64, (wx * wy) % wm);
    }
}

fn stress32(m: u32, pairs: u32, seed: u64) {
    let b = backend32(m);
    let with_mul = b.is_exact();
    let edges: [u32; 4] = [0, 1 % m, m / 2, m - 1];
    for &x in edges.iter() {
        for &y in edges.iter() {
            check_pair32(&b, m, x, y, with_mul);
        }
    }
    let mut g = Generator32 { state: seed };
    for _ in 0..pairs {
        let x = g.below(m);
        let y = g.below(m);
        check_pair32(&b, m, x, y, with_mul);
        check_pair32(&b, m, x, x, with_mul);
        check_pair32(&b, m, x, m - 1, with_mul);
        check_pair32(&b, m, 0, y, with_mul);
    }
}

#[test]
fn narrow_modulus_seventeen() {
    let b = backend32(17);
    assert!(b.is_exact());
    assert_eq!(b.modulus(), 17);
    assert_eq!(b.modulus_bits(), 5);
    assert_eq!(b.barrett_alpha(), 8);
    assert_eq!(b.barrett_constant(), 481);
    assert_eq!(b.add_mod_fast(10, 12), 5);
    assert_eq!(b.sub_mod_fast(10, 12), 15);
    assert_eq!(b.mul_mod_fast(10, 12), 1);
}

#[test]
fn narrow_constants_of_a_29_bit_modulus() {
    // mu = floor(2^61 / (2^29 - 1)) = 2^32 + 8 does not fit in 32 bits.
    let m: u32 = (1u32 << 29) - 1;
    let wide: u128 = (1u128 << 61) / m as u128;
    assert_eq!(wide, (1u128 << 32) + 8);
    let (bits, mu) = <BarrettModulus32 as BarrettBackend32>::precompute_alpha_and_barrett_constant(m);
    assert_eq!(bits, 29);
    assert_eq!(bits + 3, 32);
    assert_eq!(mu, 8);
    let b = backend32(m);
    assert_eq!(b.modulus_bits(), 29);
    assert!(!b.is_exact());
}

#[test]
fn narrow_constants_keep_the_full_scalar_width() {
    let m: u32 = (1u32 << 28) - 1;
    let b = backend32(m);
    assert!(b.is_exact());
    assert_eq!(b.modulus_bits(), 28);
    assert_eq!(b.barrett_alpha(), 31);
    assert_eq!(b.barrett_constant(), 0x8000_0008);
    assert_eq!(b.barrett_constant() as u128, (1u128 << 59) / m as u128);
}

#[test]
fn narrow_new_rejects_zero_and_too_large_moduli() {
    assert!(BarrettModulus32::new(0).is_none());
    assert!(BarrettModulus32::new(1u32 << 30).is_none());
    assert!(BarrettModulus32::new(u32::MAX).is_none());
    assert!(BarrettModulus32::new(1).is_some());
    assert!(BarrettModulus32::new((1u32 << 30) - 1).is_some());
}

#[test]
fn narrow_exactness_follows_the_modulus() {
    assert!(backend32(1).is_exact());
    assert!(backend32(2).is_exact());
    assert!(backend32((1u32 << 27) - 1).is_exact());
    assert!(!backend32(1u32 << 27).is_exact());
    assert!(backend32((1u32 << 27) + 1).is_exact());
    assert!(backend32((1u32 << 28) - 1).is_exact());
    assert!(!backend32(1u32 << 28).is_exact());
    assert!(!backend32((1u32 << 30) - 1).is_exact());
    for bits in 1u32..=30 {
        for &m in [1u32 << (bits - 1), (1u32 << (bits - 1)) | 1, ((1u64 << bits) - 1) as u32].iter() {
            let b = backend32(m);
            let n = b.modulus_bits();
            assert_eq!(n as u32, bits);
            let wide: u128 = (1u128 << (2 * n + 3)) / m as u128;
            assert_eq!(b.barrett_constant(), wide as u32);
            assert_eq!(b.is_exact(), wide <= u32::MAX as u128, "modulus {}", m);
        }
    }
}

#[test]
fn narrow_modulus_one_has_the_single_residue_zero() {
    let b = backend32(1);
    assert!(b.is_exact());
    assert_eq!(b.modulus_bits(), 1);
    assert_eq!(b.barrett_alpha(), 4);
    assert_eq!(b.barrett_constant(), 32);
    assert_eq!(b.add_mod_fast(0, 0), 0);
    assert_eq!(b.sub_mod_fast(0, 0), 0);
    assert_eq!(b.mul_mod_fast(0, 0), 0);
}

#[test]
fn narrow_small_moduli_agree_with_the_reference() {
    for m in 1u32..=40 {
        let b = backend32(m);
        for x in 0..m {
            for y in 0..m {
                check_pair32(&b, m, x, y, b.is_exact());
            }
        }
    }
}

#[test]
fn narrow_identities_and_commutativity() {
    let moduli: [u32; 4] = [2, 17, 65_537, (1u32 << 28) - 1];
    for &m in moduli.iter() {
        let b = backend32(m);
        assert!(b.is_exact());
        let samples: [u32; 5] = [0, 1, m / 2, m - 1, m / 7];
        for &x in samples.iter() {
            assert_eq!(b.add_mod_fast(x, 0), x);
            assert_eq!(b.sub_mod_fast(x, 0), x);
            assert_eq!(b.mul_mod_fast(x, 1), x);
            for &y in samples.iter() {
                assert_eq!(b.mul_mod_fast(x, y), b.mul_mod_fast(y, x));
                assert!(b.mul_mod_fast(x, y) < m);
                assert!(b.add_mod_fast(x, y) < m);
                assert!(b.sub_mod_fast(x, y) < m);
            }
        }
    }
}

#[test]
fn narrow_stress_largest_exact_moduli() {
    stress32((1u32 << 28) - 1, 100_000, 0x9E37_79B9_7F4A_7C15);
    stress32((1u32 << 28) - 57, 100_000, 0xD1B5_4A32_D192_ED03);
    stress32((1u32 << 27) + 1, 100_000, 0x2545_F491_4F6C_DD1D);
}

#[test]
fn narrow_stress_additive_on_the_largest_modulus() {
    let m: u32 = (1u32 << 30) - 1;
    assert!(!backend32(m).is_exact());
    stress32(m, 100_000, 0x0123_4567_89AB_CDEF);
}

#[test]
fn narrow_stress_many_moduli() {
    let mut g = Generator32 { state: 0x853C_49E6_748F_EA9B };
    for bits in 2u32..=28 {
        for _ in 0..16 {
            let low: u32 = 1u32 << (bits - 1);
            let m: u32 = low + g.below(low);
            stress32(m, 500, g.next() | 1);
        }
    }
}
