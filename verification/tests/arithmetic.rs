use boolalg::adder;
use boolalg::bitwise_adder;
use boolalg::bitwise_multiplier;
use boolalg::gray_code::gray_code;
use boolalg::multiplier;

#[test]
fn test_adder() {
    assert_eq!(adder::adder(5, 7), Ok(12));
    assert_eq!(adder::adder(0, 0), Ok(0));
}

#[test]
fn adder_test_adder() {
    for i in 0u32..10 {
        for j in 0u32..10 {
            assert_eq!(bitwise_adder::adder(i, j), i + j);
        }
    }
    assert_eq!(
        bitwise_adder::adder(u32::MAX, u32::MAX),
        u32::MAX.wrapping_add(u32::MAX)
    );
}

#[test]
fn introduction_test_adder() {
    for i in 0u32..10 {
        for j in 0u32..10 {
            assert_eq!(bitwise_adder::adder(i, j), i + j);
        }
    }
    assert_eq!(
        bitwise_adder::adder(u32::MAX, u32::MAX),
        u32::MAX.wrapping_add(u32::MAX)
    );
}

#[test]
fn eval_adder() {
    assert_eq!(bitwise_adder::adder(0, 0), 0);
    assert_eq!(bitwise_adder::adder(1, 0), 1);
    assert_eq!(bitwise_adder::adder(0, 1), 1);
    assert_eq!(bitwise_adder::adder(1, 1), 2);
    assert_eq!(bitwise_adder::adder(1, 2), 3);
    assert_eq!(bitwise_adder::adder(2, 2), 4);
}

#[test]
fn multiplier_test_multiplier() {
    for i in 0u32..10 {
        for j in 0u32..10 {
            assert_eq!(bitwise_multiplier::multiplier(i, j), i * j);
        }
    }
    assert_eq!(
        bitwise_multiplier::multiplier(u32::MAX, u32::MAX),
        u32::MAX.wrapping_mul(u32::MAX)
    );
}

#[test]
fn eval_multiplier() {
    assert_eq!(bitwise_multiplier::multiplier(0, 0), 0);
    assert_eq!(bitwise_multiplier::multiplier(1, 0), 0);
    assert_eq!(bitwise_multiplier::multiplier(0, 1), 0);
    assert_eq!(bitwise_multiplier::multiplier(1, 1), 1);
    assert_eq!(bitwise_multiplier::multiplier(1, 2), 2);
    assert_eq!(bitwise_multiplier::multiplier(2, 2), 4);
}

#[test]
fn test_multiplier() {
    assert_eq!(multiplier::multiplier(5, 7), Ok(35));
    assert_eq!(multiplier::multiplier(15, 27), Ok(405));
    assert_eq!(multiplier::multiplier(0, 42), Ok(0));
}

#[test]
fn test_multiplier_edge_cases() {
    assert_eq!(multiplier::multiplier(1, u32::MAX), Ok(u32::MAX));
    assert_eq!(multiplier::multiplier(u32::MAX, 1), Ok(u32::MAX));
}

#[test]
fn test_multiplier_large_numbers() {
    assert_eq!(multiplier::multiplier(10000, 10000), Ok(100_000_000));
    assert_eq!(multiplier::multiplier(u32::MAX / 2, 2), Ok(u32::MAX - 1));
}

#[test]
fn test_gray_code_examples() {
    assert_eq!(gray_code(0), 0);
    assert_eq!(gray_code(1), 1);
    assert_eq!(gray_code(2), 3);
    assert_eq!(gray_code(3), 2);
    assert_eq!(gray_code(4), 6);
    assert_eq!(gray_code(5), 7);
    assert_eq!(gray_code(6), 5);
    assert_eq!(gray_code(7), 4);
    assert_eq!(gray_code(8), 12);
}

#[test]
fn test_gray_code_next_value_different_by_one_bit() {
    for n in 0..1_000 {
        let gray_n = gray_code(n);
        let gray_n_plus_one = gray_code(n + 1);
        let differing_bits = (gray_n ^ gray_n_plus_one).count_ones();
        assert_eq!(differing_bits, 1);
    }
}

#[test]
fn adder_wraps_like_addition() {
    assert_eq!(bitwise_adder::adder(0xFFFF_FFFF, 1), 0);
    assert_eq!(adder::adder(0xFFFF_FFFF, 2), Ok(1));
}

#[test]
fn zorder_round_trip() {
    let cases: Vec<(u16, u16)> = vec![(0, 0), (12345, 54321), (65535, 65535), (65535, 0), (0, 65535)];
    for (x, y) in cases {
        let interleaved = boolalg::zorder::interleave(x, y);
        assert!(interleaved < 1u64 << 32);
        let (rx, ry) = boolalg::zorder::deinterleave(interleaved as u32);
        assert_eq!((rx, ry), (x, y));
    }
}

#[test]
fn zorder_interleaves_bits() {
    assert_eq!(boolalg::zorder::interleave(0, 0), 0);
    assert_eq!(boolalg::zorder::interleave(1, 0), 1);
    assert_eq!(boolalg::zorder::interleave(0, 1), 2);
    assert_eq!(boolalg::zorder::interleave(3, 0), 5);
    assert_eq!(boolalg::zorder::interleave(0, 3), 10);
    assert_eq!(boolalg::zorder::interleave(65535, 65535), 0xFFFF_FFFF);
}
