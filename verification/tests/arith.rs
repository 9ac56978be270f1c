use homeworks::arith::{array_sum, double_int32, double_int64, tuple_sum};

#[test]
fn test_double_int32() {
    assert_eq!(double_int32(1_u32), 2_u32);
    assert_eq!(double_int32(0_u32), 0_u32);
}

#[test]
fn double_int32_drops_the_top_bit() {
    assert_eq!(double_int32(0x8000_0001_u32), 2_u32);
    assert_eq!(double_int32(u32::MAX), u32::MAX - 1);
}

#[test]
fn test_double_int64() {
    assert_eq!(double_int64(1_u32), 2_u64);
    assert_eq!(double_int64(0_u32), 0_u64);
    assert_eq!(double_int64(4_294_967_295_u32), 8_589_934_590_u64);
}

#[test]
fn array_sum_test_int_plus_float_to_float() {
    assert_eq!(array_sum([1_i64, 1_i64, 1_i64]), 3_i64);
    assert_eq!(array_sum([1_i64, 2_i64, 3_i64]), 6_i64);
    assert_eq!(array_sum([0_i64, 0_i64, 0_i64]), 0_i64);
    assert_eq!(array_sum([0_i64, 1_i64, 0_i64]), 1_i64);
}

#[test]
fn tuple_sum_test_int_plus_float_to_float() {
    assert_eq!(tuple_sum((1_i64, 1_i64)), 2_i64);
    assert_eq!(tuple_sum((1_i64, -1_i64)), 0_i64);
    assert_eq!(tuple_sum((0_i64, 0_i64)), 0_i64);
    assert_eq!(tuple_sum((1_i64, 2_i64)), 3_i64);
}
