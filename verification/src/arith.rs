//! Doubling and summing small groups of integers.
use vstd::prelude::*;
use std::ops::Add;
use vstd::std_specs::ops::AddSpec;

verus! {

/// Twice `input`, shifted left by one bit: the top bit falls off, so the
/// result is `2 * input` modulo 2^32.
pub fn double_int32(input: u32) -> (r: u32)
    ensures
        r == (2 * input) % 0x1_0000_0000,
{
    assert((input << 1u32) == (2 * input) % 0x1_0000_0000) by (bit_vector);
    input << 1
}

/// Twice `i`, as a 64-bit number (never overflows).
pub fn double_int64(i: u32) -> (r: u64)
    ensures
        r == 2 * i,
{
    let wide: u64 = i as u64;
    assert(wide < 0x1_0000_0000 ==> (wide << 1u64) == 2 * wide) by (bit_vector);
    wide << 1
}

/// The sum of the three numbers.
pub fn array_sum(x: [i64; 3]) -> (r: i64)
    requires
        i64::MIN <= x[0] + x[1] <= i64::MAX,
        i64::MIN <= x[0] + x[1] + x[2] <= i64::MAX,
    ensures
        r == x[0] + x[1] + x[2],
{
    let mut sum: i64 = 0;
    for i in 0..3usize
        invariant
            i64::MIN <= x[0] + x[1] <= i64::MAX,
            i64::MIN <= x[0] + x[1] + x[2] <= i64::MAX,
            i == 0 ==> sum == 0,
            i == 1 ==> sum == x[0],
            i == 2 ==> sum == x[0] + x[1],
            i == 3 ==> sum == x[0] + x[1] + x[2],
    {
        sum = sum + x[i];
    }
    sum
}

/// The two halves of the pair added with the type's own `+`.
pub fn tuple_sum<T: Add<Output = T>>(pair: (T, T)) -> (r: T)
    requires
        pair.0.add_req(pair.1),
    ensures
        T::obeys_add_spec() ==> r == pair.0.add_spec(pair.1),
{
    pair.0 + pair.1
}

} // verus!
