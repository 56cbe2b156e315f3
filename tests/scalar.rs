use linalg::ratio::Ratio;
use linalg::scalar::{Abs, Field, MulAdd, One, Sqrt, Zero};

#[test]
fn integer_scalar_operations() {
    assert_eq!(Abs::abs(-5i64), 5);
    assert_eq!(Abs::abs(i64::MIN + 1), i64::MAX);
    assert_eq!(Abs::abs(42i64), 42);
    assert_eq!(MulAdd::mul_add(10i64, 20, 30), 230);
    assert_eq!(Sqrt::sqrt(81i64), 9);
    assert_eq!(Sqrt::sqrt(80i64), 8);
    assert_eq!(Sqrt::sqrt(-4i64), 0);
    assert_eq!(Sqrt::sqrt(i64::MAX), 3037000499);
    assert_eq!(Field::div(7i64, 2), 3);
    assert_eq!(Field::div(-7i64, 2), -3);
    assert_eq!(Field::div(i64::MIN, -1), i64::MIN);
    assert!(<i64 as Zero>::zero().is_zero());
    assert!(<i64 as One>::one().is_one());
}

#[test]
fn integer_square_roots() {
    for i in 0..100i64 {
        assert_eq!(Sqrt::sqrt(i * i), i);
    }
}

#[test]
fn ratio_arithmetic() {
    let half = Ratio::new(1, 2);
    let third = Ratio::new(-2, -6);
    assert_eq!((third.numer(), third.denom()), (1, 3));
    assert_eq!(Ratio::new(3, -6), Ratio::new(-1, 2));
    assert_eq!(Field::add(half, third), Ratio::new(5, 6));
    assert_eq!(Field::sub(half, third), Ratio::new(1, 6));
    assert_eq!(Field::mul(half, third), Ratio::new(1, 6));
    assert_eq!(Field::div(half, third), Ratio::new(3, 2));
    assert_eq!(MulAdd::mul_add(half, third, Ratio::from_int(1)), Ratio::new(7, 6));
    assert!(Field::lt(&third, &half));
    assert_eq!(Abs::abs(Ratio::new(-3, 4)), Ratio::new(3, 4));
    assert_eq!(Sqrt::sqrt(Ratio::new(9, 4)), Ratio::new(3, 2));
    assert_eq!(Sqrt::sqrt(Ratio::new(-9, 4)), Ratio::from_int(0));
    assert_eq!(Ratio::new(5, 0), Ratio::from_int(0));
    assert!(Ratio::new(0, 7).is_zero());
    assert!(Ratio::new(7, 7).is_one());
}
