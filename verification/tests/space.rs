use audio_sim::space::Space;
use audio_sim::{SimError, SCALE};

#[test]
fn new_grid_is_at_rest() {
    let s = Space::new(4);
    assert_eq!(s.size, 4);
    assert_eq!(s.space.len(), 16);
    for y in 0..4 {
        for x in 0..4 {
            assert_eq!(s.get(x, y), Ok(0));
            assert_eq!(s.params_c[x + y * 4], 200_000);
            assert_eq!(s.params_k[x + y * 4], 200_000);
        }
    }
    assert_eq!(s.get(4, 0), Err(SimError::IndexOutOfRange));
    assert_eq!(s.get(0, 4), Err(SimError::IndexOutOfRange));
}

#[test]
fn put_and_get_roundtrip() {
    let mut s = Space::new(5);
    assert_eq!(s.put(2, 3, 123_456), Ok(()));
    assert_eq!(s.get(2, 3), Ok(123_456));
    assert_eq!(s.get(3, 2), Ok(0));
    assert_eq!(s.put(5, 0, 7), Err(SimError::IndexOutOfRange));
    assert_eq!(s.put(0, 5, 7), Err(SimError::IndexOutOfRange));
    assert_eq!(s.get(2, 3), Ok(123_456));
}

#[test]
fn add_gauss_exact_kernel_values() {
    // Pulse centered on cell (1, 1) with sigma = 1.0 and power = 1.0: every
    // cell gains the kernel of its squared distance to the center,
    // exp(-r2/2) / sqrt(2 pi) in fixed point.
    let mut s = Space::new(4);
    assert_eq!(s.add_gauss(SCALE, SCALE, SCALE, SCALE), Ok(()));
    assert_eq!(s.get(1, 1), Ok(398_942)); // r2 = 0
    assert_eq!(s.get(1, 0), Ok(242_066)); // r2 = 1
    assert_eq!(s.get(0, 1), Ok(242_066));
    assert_eq!(s.get(0, 0), Ok(146_762)); // r2 = 2
    assert_eq!(s.get(2, 2), Ok(146_762));
    assert_eq!(s.get(3, 0), Ok(32_759)); // r2 = 5
    assert_eq!(s.get(3, 1), Ok(53_990)); // r2 = 4
    assert_eq!(s.get(3, 3), Ok(7_306)); // r2 = 8
}

#[test]
fn add_gauss_accumulates() {
    let mut s = Space::new(4);
    assert_eq!(s.add_gauss(SCALE, SCALE, SCALE, SCALE), Ok(()));
    assert_eq!(s.add_gauss(SCALE, SCALE, SCALE, SCALE), Ok(()));
    assert_eq!(s.get(1, 1), Ok(2 * 398_942));
}

#[test]
fn add_gauss_with_zero_power_changes_nothing() {
    let mut s = Space::new(4);
    assert_eq!(s.add_gauss(SCALE, SCALE, SCALE, 0), Ok(()));
    for y in 0..4 {
        for x in 0..4 {
            assert_eq!(s.get(x, y), Ok(0));
        }
    }
}

#[test]
fn add_gauss_rejects_bad_arguments() {
    let mut s = Space::new(4);
    // sigma = 0 would divide by zero in the kernel.
    assert_eq!(s.add_gauss(SCALE, SCALE, 0, SCALE), Err(SimError::InvalidParameter));
    assert_eq!(s.add_gauss(SCALE, SCALE, -SCALE, SCALE), Err(SimError::InvalidParameter));
    // sigma below the smallest representable width.
    assert_eq!(s.add_gauss(SCALE, SCALE, 999, SCALE), Err(SimError::InvalidParameter));
    // center too far away.
    assert_eq!(
        s.add_gauss(100_000_000_000_001, SCALE, SCALE, SCALE),
        Err(SimError::InvalidParameter)
    );
    for y in 0..4 {
        for x in 0..4 {
            assert_eq!(s.get(x, y), Ok(0));
        }
    }
}

#[test]
fn add_gauss_reports_overflow_and_leaves_grid_alone() {
    let mut s = Space::new(4);
    assert_eq!(s.put(1, 1, i64::MAX), Ok(()));
    assert_eq!(s.add_gauss(SCALE, SCALE, SCALE, SCALE), Err(SimError::NumericInstability));
    assert_eq!(s.get(1, 1), Ok(i64::MAX));
    assert_eq!(s.get(0, 0), Ok(0));
}
