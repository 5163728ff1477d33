use num_traits::{One, WrappingAdd, WrappingSub, Zero};
use spiral::Int;
use std::fmt::Debug;

fn agrees_with_num_traits<I>(values: &[I])
where
    I: Int + WrappingAdd + WrappingSub + Zero + One + PartialOrd + Debug,
{
    assert_eq!(<I as Int>::zero(), <I as Zero>::zero());
    assert_eq!(<I as Int>::one(), <I as One>::one());
    for a in values.iter() {
        assert_eq!(<I as Int>::equals(*a, <I as Int>::zero()), <I as Zero>::is_zero(a));
        for b in values.iter() {
            assert_eq!(
                <I as Int>::wrapping_add(*a, *b),
                <I as WrappingAdd>::wrapping_add(a, b)
            );
            assert_eq!(
                <I as Int>::wrapping_sub(*a, *b),
                <I as WrappingSub>::wrapping_sub(a, b)
            );
            assert_eq!(<I as Int>::equals(*a, *b), *a == *b);
            assert_eq!(<I as Int>::less_than(*a, *b), *a < *b);
        }
    }
}

#[test]
fn every_i8_agrees_with_num_traits() {
    let values: Vec<i8> = (i8::MIN..=i8::MAX).collect();
    agrees_with_num_traits(&values);
}

#[test]
fn every_u8_agrees_with_num_traits() {
    let values: Vec<u8> = (u8::MIN..=u8::MAX).collect();
    agrees_with_num_traits(&values);
}

#[test]
fn signed_types_agree_with_num_traits() {
    agrees_with_num_traits(&[i16::MIN, i16::MIN + 1, -2, -1, 0, 1, 2, i16::MAX - 1, i16::MAX]);
    agrees_with_num_traits(&[i32::MIN, i32::MIN + 1, -2, -1, 0, 1, 2, i32::MAX - 1, i32::MAX]);
    agrees_with_num_traits(&[i64::MIN, i64::MIN + 1, -2, -1, 0, 1, 2, i64::MAX - 1, i64::MAX]);
    agrees_with_num_traits(&[i128::MIN, i128::MIN + 1, -2, -1, 0, 1, 2, i128::MAX - 1, i128::MAX]);
    agrees_with_num_traits(
        &[isize::MIN, isize::MIN + 1, -2, -1, 0, 1, 2, isize::MAX - 1, isize::MAX],
    );
}

#[test]
fn unsigned_types_agree_with_num_traits() {
    agrees_with_num_traits(&[0u16, 1, 2, u16::MAX / 2, u16::MAX / 2 + 1, u16::MAX - 1, u16::MAX]);
    agrees_with_num_traits(&[0u32, 1, 2, u32::MAX / 2, u32::MAX / 2 + 1, u32::MAX - 1, u32::MAX]);
    agrees_with_num_traits(&[0u64, 1, 2, u64::MAX / 2, u64::MAX / 2 + 1, u64::MAX - 1, u64::MAX]);
    agrees_with_num_traits(
        &[0u128, 1, 2, u128::MAX / 2, u128::MAX / 2 + 1, u128::MAX - 1, u128::MAX],
    );
    agrees_with_num_traits(
        &[0usize, 1, 2, usize::MAX / 2, usize::MAX / 2 + 1, usize::MAX - 1, usize::MAX],
    );
}

#[test]
fn wrapping_at_the_ends_of_the_range() {
    assert_eq!(<i8 as Int>::wrapping_add(127, 1), -128);
    assert_eq!(<i8 as Int>::wrapping_sub(-128, 1), 127);
    assert_eq!(<u8 as Int>::wrapping_add(255, 1), 0);
    assert_eq!(<u8 as Int>::wrapping_sub(0, 1), 255);
    assert_eq!(<i32 as Int>::wrapping_add(i32::MAX, i32::MAX), -2);
    assert_eq!(<u32 as Int>::wrapping_sub(3, 5), u32::MAX - 1);
    assert_eq!(<i64 as Int>::wrapping_add(40, 2), 42);
    assert_eq!(<u64 as Int>::wrapping_sub(44, 2), 42);
}

#[test]
fn comparisons_follow_the_values() {
    assert!(<i8 as Int>::less_than(-1, 0));
    assert!(!<i8 as Int>::less_than(0, -1));
    assert!(!<i8 as Int>::less_than(5, 5));
    assert!(<u8 as Int>::less_than(0, 255));
    assert!(<i16 as Int>::equals(-300, -300));
    assert!(!<i16 as Int>::equals(-300, 300));
    assert_eq!(<u128 as Int>::zero(), 0);
    assert_eq!(<i128 as Int>::one(), 1);
}
