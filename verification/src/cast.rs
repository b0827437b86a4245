//! Conversions between the scalar types and their wide companions.
use vstd::prelude::*;
use num_traits::AsPrimitive;

verus! {

/// Calls `num_traits::AsPrimitive::<u128>::as_` on a `u64`, which is the
/// primitive cast `x as u128`: the value is kept.
#[verifier::external_body]
pub(crate) fn u64_to_u128(x: u64) -> (r: u128)
    ensures
        r == x,
{
    AsPrimitive::<u128>::as_(x)
}

/// Calls `num_traits::AsPrimitive::<u64>::as_` on a `u128`, which is the
/// primitive cast `x as u64`: the low 64 bits are kept.
#[verifier::external_body]
pub(crate) fn u128_to_u64(x: u128) -> (r: u64)
    ensures
        r == x % 0x1_0000_0000_0000_0000,
{
    AsPrimitive::<u64>::as_(x)
}

/// Calls `num_traits::AsPrimitive::<u64>::as_` on a `u32`, which is the
/// primitive cast `x as u64`: the value is kept.
#[verifier::external_body]
pub(crate) fn u32_to_u64(x: u32) -> (r: u64)
    ensures
        r == x,
{
    AsPrimitive::<u64>::as_(x)
}

/// Calls `num_traits::AsPrimitive::<u32>::as_` on a `u64`, which is the
/// primitive cast `x as u32`: the low 32 bits are kept.
#[verifier::external_body]
pub(crate) fn u64_to_u32(x: u64) -> (r: u32)
    ensures
        r == x % 0x1_0000_0000,
{
    AsPrimitive::<u32>::as_(x)
}

/// Calls `num_traits::AsPrimitive::<u128>::as_` on a `u32`, which is the
/// primitive cast `x as u128`: the value is kept.
#[verifier::external_body]
pub(crate) fn u32_to_u128(x: u32) -> (r: u128)
    ensures
        r == x,
{
    AsPrimitive::<u128>::as_(x)
}

/// Calls `num_traits::AsPrimitive::<u32>::as_` on a `u128`, which is the
/// primitive cast `x as u32`: the low 32 bits are kept.
#[verifier::external_body]
pub(crate) fn u128_to_u32(x: u128) -> (r: u32)
    ensures
        r == x % 0x1_0000_0000,
{
    AsPrimitive::<u32>::as_(x)
}

} // verus!
