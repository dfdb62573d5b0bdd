//! Shift-and-add multiplication over the carry-loop adder, packaged
//! behind a `Result`.

use vstd::prelude::*;
use crate::adder::adder;
use crate::bitwise_multiplier::wrap_mul32;
use vstd::arithmetic::div_mod::lemma_add_mod_noop;
use vstd::arithmetic::div_mod::lemma_add_mod_noop_right;
use vstd::arithmetic::div_mod::lemma_mul_mod_noop_left;
use vstd::arithmetic::div_mod::lemma_small_mod;
use vstd::pervasive::unreached;

verus! {

/// Reducing the scaled summand modulo `m` does not change a modular sum.
proof fn lemma_mod_sum_scaled(c: int, x2: int, q: int, m: int)
    requires
        0 < m,
    ensures
        ((c % m) + ((x2 % m) * q)) % m == (c + x2 * q) % m,
{
    lemma_add_mod_noop_right(c % m, (x2 % m) * q, m);
    lemma_mul_mod_noop_left(x2, q, m);
    lemma_add_mod_noop_right(c % m, x2 * q, m);
    lemma_add_mod_noop(c, x2 * q, m);
}

/// Multiplies by shifting and adding; the product wraps on overflow and
/// is always returned successfully.
pub fn multiplier(a: u32, b: u32) -> (r: Result<u32, String>)
    ensures
        r == Ok::<u32, String>(wrap_mul32(a, b)),
{
    let mut x = a;
    let mut y = b;
    let mut result: u32 = 0;
    let ghost m = 0x1_0000_0000int;
    while y != 0
        invariant
            m == 0x1_0000_0000int,
            (result + x * y) % m == (a * b) % m,
        decreases y,
    {
        let ghost x0 = x;
        let ghost y0 = y;
        let ghost r0 = result;
        proof {
            assert(y0 >> 1u32 < y0 && y0 == 2 * (y0 >> 1u32) + (y0 & 1u32) && ((y0 & 1u32) == 0
                || (y0 & 1u32) == 1)) by (bit_vector)
                requires
                    y0 != 0u32,
            ;
            assert((x0 << 1u32) == (2 * x0) % 0x1_0000_0000) by (bit_vector);
        }
        let ghost q = (y0 >> 1u32) as int;
        if y & 1 != 0 {
            let new_result = match adder(result, x) {
                Ok(s) => s,
                Err(_) => unreached(),
            };
            result = new_result;
            proof {
                lemma_mod_sum_scaled(r0 + x0, 2 * x0, q, m);
                assert(r0 + x0 + (2 * x0) * q == r0 + x0 * (2 * q + 1)) by (nonlinear_arith);
            }
        } else {
            proof {
                lemma_small_mod(r0 as nat, m as nat);
                lemma_mod_sum_scaled(r0 as int, 2 * x0, q, m);
                assert(r0 + (2 * x0) * q == r0 + x0 * (2 * q)) by (nonlinear_arith);
            }
        }
        x = x << 1;
        y = y >> 1;
    }
    Ok(result)
}

} // verus!
