//! The carry-loop adder, packaged behind a `Result`.

use vstd::prelude::*;
use crate::bitwise_adder::wrap_add32;

verus! {

/// Adds two numbers with XOR and shifted carries; the sum wraps on
/// overflow and is always returned successfully.
pub fn adder(a: u32, b: u32) -> (r: Result<u32, String>)
    ensures
        r == Ok::<u32, String>(wrap_add32(a, b)),
{
    let mut x = a;
    let mut y = b;
    let ghost mut k: u64 = 0;
    proof {
        assert((y as u64) & (((1u64 << 0u64) - 1) as u64) == 0) by (bit_vector);
    }
    while y != 0
        invariant_except_break
            (x + y) % 0x1_0000_0000 == (a + b) % 0x1_0000_0000,
            (y as u64) & (((1u64 << k) - 1) as u64) == 0,
            k <= 32,
        ensures
            (x as int) % 0x1_0000_0000 == (a + b) % 0x1_0000_0000,
        decreases 32 - k,
    {
        let ghost x0 = x;
        let ghost y0 = y;
        let carry = x & y;
        x = x ^ y;
        if carry == 0 {
            proof {
                assert((x0 & y0) == 0 ==> (x0 ^ y0) == x0 + y0) by (bit_vector);
                vstd::arithmetic::div_mod::lemma_small_mod((x0 ^ y0) as nat, 0x1_0000_0000nat);
            }
            break ;
        }
        proof {
            assert(((x0 ^ y0) + ((x0 & y0) << 1u32)) % 0x1_0000_0000 == (x0 + y0) % 0x1_0000_0000)
                by (bit_vector);
            assert(k < 32) by (bit_vector)
                requires
                    (y0 as u64) & (((1u64 << k) - 1) as u64) == 0,
                    y0 != 0u32,
                    k <= 32u64,
            ;
            assert((((x0 & y0) << 1u32) as u64) & (((1u64 << ((k + 1) as u64)) - 1) as u64) == 0) by (bit_vector)
                requires
                    (y0 as u64) & (((1u64 << k) - 1) as u64) == 0,
                    k < 32u64,
            ;
            k = (k + 1) as u64;
        }
        y = carry << 1;
    }
    proof {
        vstd::arithmetic::div_mod::lemma_small_mod(x as nat, 0x1_0000_0000nat);
    }
    Ok(x)
}

} // verus!
