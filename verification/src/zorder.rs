//! Z-order curve bit interleaving: the integer core of mapping a
//! coordinate pair to a position on a space-filling curve and back.

use vstd::prelude::*;

verus! {

/// Interleaves the bits of `x` (even positions) and `y` (odd positions)
/// into one 32-bit pattern.
pub fn interleave(x: u16, y: u16) -> (r: u64)
    ensures
        r < 0x1_0000_0000,
        forall|j: u64|
            j < 16 ==> #[trigger] ((r >> (2 * j)) & 1) == (((x as u64) >> j) & 1) && ((r >> (2 * j + 1))
                & 1) == (((y as u64) >> j) & 1),
{
    let mut interleaved: u64 = 0;
    let mut i: u64 = 0;
    proof {
        assert((1u64 << (2 * 0u64)) == 1) by (bit_vector);
    }
    while i < 16
        invariant
            i <= 16,
            interleaved < (1u64 << (2 * i)),
            forall|j: u64|
                j < i ==> #[trigger] ((interleaved >> (2 * j)) & 1) == (((x as u64) >> j) & 1) && ((
                interleaved >> (2 * j + 1)) & 1) == (((y as u64) >> j) & 1),
        decreases 16 - i,
    {
        let bit_x = ((x as u64) >> i) & 1;
        let bit_y = ((y as u64) >> i) & 1;
        let ghost prev = interleaved;
        interleaved = interleaved | ((bit_x << (2 * i)) | (bit_y << (2 * i + 1)));
        proof {
            let xb = (x as u64 >> i) & 1;
            let yb = (y as u64 >> i) & 1;
            let next = prev | ((xb << (2 * i)) | (yb << (2 * i + 1)));
            assert(next < (1u64 << (2 * (i + 1))) && ((next >> (2 * i)) & 1) == xb && ((next >> (2
                * i + 1)) & 1) == yb) by (bit_vector)
                requires
                    i < 16u64,
                    prev < (1u64 << (2 * i)),
                    xb == (x as u64 >> i) & 1,
                    yb == (y as u64 >> i) & 1,
                    next == prev | ((xb << (2 * i)) | (yb << (2 * i + 1))),
            ;
            assert forall|j: u64| j < i implies #[trigger] ((next >> (2 * j)) & 1) == ((prev >> (2 * j)) & 1)
                && ((next >> (2 * j + 1)) & 1) == ((prev >> (2 * j + 1)) & 1) by {
                assert(((next >> (2 * j)) & 1) == ((prev >> (2 * j)) & 1) && ((next >> (2 * j + 1))
                    & 1) == ((prev >> (2 * j + 1)) & 1)) by (bit_vector)
                    requires
                        j < i,
                        i < 16u64,
                        prev < (1u64 << (2 * i)),
                        next == prev | ((xb << (2 * i)) | (yb << (2 * i + 1))),
                        xb == (x as u64 >> i) & 1,
                        yb == (y as u64 >> i) & 1,
                ;
            }
        }
        i = i + 1;
    }
    proof {
        assert((1u64 << 32u64) == 0x1_0000_0000u64) by (bit_vector);
    }
    interleaved
}

/// Splits an interleaved 32-bit pattern back into its two coordinates.
pub fn deinterleave(interleaved: u32) -> (r: (u16, u16))
    ensures
        forall|j: u32|
            j < 16 ==> #[trigger] (((r.0 as u32) >> j) & 1) == ((interleaved >> (2 * j)) & 1) && (((
            r.1 as u32) >> j) & 1) == ((interleaved >> (2 * j + 1)) & 1),
{
    let mut x: u16 = 0;
    let mut y: u16 = 0;
    let mut i: u32 = 0;
    proof {
        assert((1u32 << 0u32) == 1) by (bit_vector);
    }
    while i < 16
        invariant
            i <= 16,
            (x as u32) < (1u32 << i),
            (y as u32) < (1u32 << i),
            forall|j: u32|
                j < i ==> #[trigger] (((x as u32) >> j) & 1) == ((interleaved >> (2 * j)) & 1) && (((
                y as u32) >> j) & 1) == ((interleaved >> (2 * j + 1)) & 1),
        decreases 16 - i,
    {
        let xbit = ((interleaved >> (2 * i)) & 1) as u16;
        let ybit = ((interleaved >> (2 * i + 1)) & 1) as u16;
        let ghost px = x;
        let ghost py = y;
        x = x | (xbit << i);
        y = y | (ybit << i);
        proof {
            let n = interleaved;
            let nx = px | ((((n >> (2 * i)) & 1) as u16) << i);
            let ny = py | ((((n >> (2 * i + 1)) & 1) as u16) << i);
            assert((nx as u32) < (1u32 << (i + 1)) && (ny as u32) < (1u32 << (i + 1)) && (((
            nx as u32) >> i) & 1) == ((n >> (2 * i)) & 1) && (((ny as u32) >> i) & 1) == ((n >> (2
                * i + 1)) & 1)) by (bit_vector)
                requires
                    i < 16u32,
                    (px as u32) < (1u32 << i),
                    (py as u32) < (1u32 << i),
                    nx == px | ((((n >> (2 * i)) & 1) as u16) << i),
                    ny == py | ((((n >> (2 * i + 1)) & 1) as u16) << i),
            ;
            assert forall|j: u32| j < i implies #[trigger] (((nx as u32) >> j) & 1) == (((px as u32) >> j)
                & 1) && (((ny as u32) >> j) & 1) == (((py as u32) >> j) & 1) by {
                assert((((nx as u32) >> j) & 1) == (((px as u32) >> j) & 1) && (((ny as u32) >> j)
                    & 1) == (((py as u32) >> j) & 1)) by (bit_vector)
                    requires
                        j < i,
                        i < 16u32,
                        (px as u32) < (1u32 << i),
                        (py as u32) < (1u32 << i),
                        nx == px | ((((n >> (2 * i)) & 1) as u16) << i),
                        ny == py | ((((n >> (2 * i + 1)) & 1) as u16) << i),
                ;
            }
        }
        i = i + 1;
    }
    (x, y)
}

/// Splitting after interleaving returns the original coordinates.
pub proof fn lemma_zorder_round_trip(x: u16, y: u16, r: u64, x2: u16, y2: u16)
    requires
        r < 0x1_0000_0000,
        forall|j: u64|
            j < 16 ==> #[trigger] ((r >> (2 * j)) & 1) == (((x as u64) >> j) & 1) && ((r >> (2 * j + 1))
                & 1) == (((y as u64) >> j) & 1),
        forall|j: u32|
            j < 16 ==> #[trigger] (((x2 as u32) >> j) & 1) == (((r as u32) >> (2 * j)) & 1) && (((
            y2 as u32) >> j) & 1) == (((r as u32) >> (2 * j + 1)) & 1),
    ensures
        x2 == x,
        y2 == y,
{
    assert forall|j: u32| j < 16 implies #[trigger] (((x2 as u32) >> j) & 1) == (((x as u32) >> j)
        & 1) by {
        let ju = j as u64;
        assert(((r >> (2 * ju)) & 1) == (((x as u64) >> ju) & 1));
        assert(((r >> (2 * ju + 1)) & 1) == (((y as u64) >> ju) & 1));
        assert((((r as u32) >> (2 * j)) & 1) == ((r >> (2 * (j as u64))) & 1) as u32 && (((
        r as u32) >> (2 * j + 1)) & 1) == ((r >> (2 * (j as u64) + 1)) & 1) as u32 && (((
        x as u32) >> j) & 1) as u64 == (((x as u64) >> (j as u64)) & 1) && (((y as u32) >> j)
            & 1) as u64 == (((y as u64) >> (j as u64)) & 1)) by (bit_vector)
            requires
                j < 16u32,
                r < 0x1_0000_0000u64,
        ;
    }
    assert forall|j: u32| j < 16 implies #[trigger] (((y2 as u32) >> j) & 1) == (((y as u32) >> j)
        & 1) by {
        assert((((x2 as u32) >> j) & 1) == (((r as u32) >> (2 * j)) & 1));
        let ju = j as u64;
        assert(((r >> (2 * ju)) & 1) == (((x as u64) >> ju) & 1));
        assert(((r >> (2 * ju + 1)) & 1) == (((y as u64) >> ju) & 1));
        assert((((r as u32) >> (2 * j)) & 1) == ((r >> (2 * (j as u64))) & 1) as u32 && (((
        r as u32) >> (2 * j + 1)) & 1) == ((r >> (2 * (j as u64) + 1)) & 1) as u32 && (((
        x as u32) >> j) & 1) as u64 == (((x as u64) >> (j as u64)) & 1) && (((y as u32) >> j)
            & 1) as u64 == (((y as u64) >> (j as u64)) & 1)) by (bit_vector)
            requires
                j < 16u32,
                r < 0x1_0000_0000u64,
        ;
    }
    assert(x2 == x && y2 == y) by (bit_vector)
        requires
            (((x2 as u32) >> 0u32) & 1) == (((x as u32) >> 0u32) & 1),
            (((x2 as u32) >> 1u32) & 1) == (((x as u32) >> 1u32) & 1),
            (((x2 as u32) >> 2u32) & 1) == (((x as u32) >> 2u32) & 1),
            (((x2 as u32) >> 3u32) & 1) == (((x as u32) >> 3u32) & 1),
            (((x2 as u32) >> 4u32) & 1) == (((x as u32) >> 4u32) & 1),
            (((x2 as u32) >> 5u32) & 1) == (((x as u32) >> 5u32) & 1),
            (((x2 as u32) >> 6u32) & 1) == (((x as u32) >> 6u32) & 1),
            (((x2 as u32) >> 7u32) & 1) == (((x as u32) >> 7u32) & 1),
            (((x2 as u32) >> 8u32) & 1) == (((x as u32) >> 8u32) & 1),
            (((x2 as u32) >> 9u32) & 1) == (((x as u32) >> 9u32) & 1),
            (((x2 as u32) >> 10u32) & 1) == (((x as u32) >> 10u32) & 1),
            (((x2 as u32) >> 11u32) & 1) == (((x as u32) >> 11u32) & 1),
            (((x2 as u32) >> 12u32) & 1) == (((x as u32) >> 12u32) & 1),
            (((x2 as u32) >> 13u32) & 1) == (((x as u32) >> 13u32) & 1),
            (((x2 as u32) >> 14u32) & 1) == (((x as u32) >> 14u32) & 1),
            (((x2 as u32) >> 15u32) & 1) == (((x as u32) >> 15u32) & 1),
            (((y2 as u32) >> 0u32) & 1) == (((y as u32) >> 0u32) & 1),
            (((y2 as u32) >> 1u32) & 1) == (((y as u32) >> 1u32) & 1),
            (((y2 as u32) >> 2u32) & 1) == (((y as u32) >> 2u32) & 1),
            (((y2 as u32) >> 3u32) & 1) == (((y as u32) >> 3u32) & 1),
            (((y2 as u32) >> 4u32) & 1) == (((y as u32) >> 4u32) & 1),
            (((y2 as u32) >> 5u32) & 1) == (((y as u32) >> 5u32) & 1),
            (((y2 as u32) >> 6u32) & 1) == (((y as u32) >> 6u32) & 1),
            (((y2 as u32) >> 7u32) & 1) == (((y as u32) >> 7u32) & 1),
            (((y2 as u32) >> 8u32) & 1) == (((y as u32) >> 8u32) & 1),
            (((y2 as u32) >> 9u32) & 1) == (((y as u32) >> 9u32) & 1),
            (((y2 as u32) >> 10u32) & 1) == (((y as u32) >> 10u32) & 1),
            (((y2 as u32) >> 11u32) & 1) == (((y as u32) >> 11u32) & 1),
            (((y2 as u32) >> 12u32) & 1) == (((y as u32) >> 12u32) & 1),
            (((y2 as u32) >> 13u32) & 1) == (((y as u32) >> 13u32) & 1),
            (((y2 as u32) >> 14u32) & 1) == (((y as u32) >> 14u32) & 1),
            (((y2 as u32) >> 15u32) & 1) == (((y as u32) >> 15u32) & 1),
    ;
}

} // verus!
