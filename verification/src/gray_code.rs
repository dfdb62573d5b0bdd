//! Reflected binary Gray code of a 32-bit number.

use vstd::prelude::*;

verus! {

/// The Gray code of `n`: `n` XORed with itself shifted right by one bit.
pub fn gray_code(n: u32) -> (r: u32)
    ensures
        r == n ^ (n >> 1u32),
{
    n ^ (n >> 1)
}

/// The Gray codes of two consecutive numbers differ in exactly one bit:
/// their XOR is a power of two.
pub proof fn lemma_gray_code_step(n: u32)
    requires
        n < 0xFFFF_FFFF,
    ensures
        ({
            let d = (n ^ (n >> 1u32)) ^ ((n + 1) as u32 ^ (((n + 1) as u32) >> 1u32));
            d != 0 && d & ((d - 1) as u32) == 0
        }),
{
    let d = (n ^ (n >> 1u32)) ^ ((n + 1) as u32 ^ (((n + 1) as u32) >> 1u32));
    assert(d != 0 && d & ((d - 1) as u32) == 0) by (bit_vector)
        requires
            n < 0xFFFF_FFFFu32,
            d == (n ^ (n >> 1u32)) ^ ((n + 1) as u32 ^ (((n + 1) as u32) >> 1u32)),
    ;
}

} // verus!
