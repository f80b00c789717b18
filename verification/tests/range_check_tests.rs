use inventory_zk::field::{fe_sub, Fe};
use inventory_zk::relations::{field_geq, fits_in_bits};

#[test]
fn test_range_check_valid() {
    // A value that fits in 64 bits
    let value = Fe::from_u64(1000);
    assert!(fits_in_bits(&value, 64));
}

#[test]
fn test_range_check_max_u64() {
    // Maximum u64 value
    let value = Fe::from_u64(u64::MAX);
    assert!(fits_in_bits(&value, 64));
}

#[test]
fn test_range_check_overflow() {
    // A value that exceeds 64 bits (simulating wrap-around):
    // -5 in the field, that is the field order minus 5.
    let wrapped_value = fe_sub(&Fe::zero(), &Fe::from_u64(5));
    assert!(!fits_in_bits(&wrapped_value, 64));
}

#[test]
fn test_geq_valid() {
    let a = Fe::from_u64(100);
    let b = Fe::from_u64(50);
    assert!(field_geq(&a, &b));
}

#[test]
fn test_geq_equal() {
    let a = Fe::from_u64(100);
    let b = Fe::from_u64(100);
    assert!(field_geq(&a, &b));
}

#[test]
fn test_geq_invalid() {
    // a < b, so a - b wraps around far above 64 bits.
    let a = Fe::from_u64(50);
    let b = Fe::from_u64(100);
    assert!(!field_geq(&a, &b));
}

#[test]
fn range_check_boundary_at_32_bits() {
    // 2^32 - 1 fits in 32 bits; 2^32 does not.
    let below = Fe::from_u64((1u64 << 32) - 1);
    let at = Fe::from_u64(1u64 << 32);
    assert!(fits_in_bits(&below, 32));
    assert!(!fits_in_bits(&at, 32));
}
