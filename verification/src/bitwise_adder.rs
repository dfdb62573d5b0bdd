//! Addition built from XOR and carry propagation only.

use vstd::prelude::*;

verus! {

/// Addition modulo 2^32.
pub open spec fn wrap_add32(a: u32, b: u32) -> u32 {
    ((a + b) % 0x1_0000_0000) as u32
}

/// Adds two numbers with XOR and shifted carries; the result wraps on
/// overflow.
pub fn adder(a: u32, b: u32) -> (r: u32)
    ensures
        r == wrap_add32(a, b),
{
    let mut x = a;
    let mut y = b;
    let ghost mut k: u64 = 0;
    proof {
        assert((y as u64) & (((1u64 << 0u64) - 1) as u64) == 0) by (bit_vector);
    }
    while y != 0
        invariant
            (x + y) % 0x1_0000_0000 == (a + b) % 0x1_0000_0000,
            (y as u64) & (((1u64 << k) - 1) as u64) == 0,
            k <= 32,
        decreases 32 - k,
    {
        let res = x ^ y;
        let carry = (x & y) << 1u32;
        proof {
            assert(((x ^ y) + ((x & y) << 1u32)) % 0x1_0000_0000 == (x + y) % 0x1_0000_0000)
                by (bit_vector);
            assert(k < 32) by (bit_vector)
                requires
                    (y as u64) & (((1u64 << k) - 1) as u64) == 0,
                    y != 0u32,
                    k <= 32u64,
            ;
            assert((((x & y) << 1u32) as u64) & (((1u64 << ((k + 1) as u64)) - 1) as u64) == 0) by (bit_vector)
                requires
                    (y as u64) & (((1u64 << k) - 1) as u64) == 0,
                    k < 32u64,
            ;
            k = (k + 1) as u64;
        }
        x = res;
        y = carry;
    }
    proof {
        vstd::arithmetic::div_mod::lemma_small_mod(x as nat, 0x1_0000_0000nat);
    }
    x
}

} // verus!
