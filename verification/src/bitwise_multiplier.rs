//! Multiplication built from the bitwise adder by binary decomposition.

use vstd::prelude::*;
use crate::bitwise_adder::adder;
use vstd::arithmetic::div_mod::lemma_add_mod_noop_right;
use vstd::arithmetic::div_mod::lemma_mul_mod_noop_right;

verus! {

/// Multiplication modulo 2^32.
pub open spec fn wrap_mul32(a: u32, b: u32) -> u32 {
    ((a * b) % 0x1_0000_0000) as u32
}

/// Multiplies by recursing on the binary decomposition of `b`; the
/// result wraps on overflow.
pub fn multiplier(a: u32, b: u32) -> (r: u32)
    ensures
        r == wrap_mul32(a, b),
    decreases b,
{
    if b == 0 {
        return 0;
    }
    proof {
        assert(b >> 1u32 < b && b == 2 * (b >> 1u32) + (b & 1u32) && ((b & 1u32) == 0 || (b
            & 1u32) == 1)) by (bit_vector)
            requires
                b != 0u32,
        ;
    }
    let ghost q = (b >> 1u32) as int;
    let ghost m = 0x1_0000_0000int;
    if b & 1 == 0 {
        let sub = multiplier(a, b >> 1);
        let r = sub << 1u32;
        proof {
            assert((sub << 1u32) == (2 * sub) % 0x1_0000_0000) by (bit_vector);
            lemma_mul_mod_noop_right(2, a * q, m);
            assert(2 * (a * q) == a * (2 * q)) by (nonlinear_arith);
        }
        r
    } else {
        let sub = multiplier(a, b >> 1);
        let shifted = sub << 1u32;
        proof {
            assert((sub << 1u32) == (2 * sub) % 0x1_0000_0000) by (bit_vector);
            lemma_mul_mod_noop_right(2, a * q, m);
            assert(2 * (a * q) == a * (2 * q)) by (nonlinear_arith);
            lemma_add_mod_noop_right(a as int, a * (2 * q), m);
            assert(a + a * (2 * q) == a * (2 * q + 1)) by (nonlinear_arith);
        }
        adder(a, shifted)
    }
}

} // verus!
