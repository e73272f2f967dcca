use qfall_math::rational::q::Q;

/// Ensure that `Default` initializes `Q` with `0`.
#[test]
fn init_default() {
    assert_eq!(Q::zero(), Q::default());
}

/// Ensure that `zero` initializes `Q` with `0`.
#[test]
fn init_zero() {
    assert_eq!(Q::try_from((&0, &1)).unwrap(), Q::zero());
}

/// Ensure that `one` initializes `Q` with `1`.
#[test]
fn init_one() {
    assert_eq!(Q::try_from((&1, &1)).unwrap(), Q::one());
}

/// Ensure that `minus_one` initializes `Q` with `-1`.
#[test]
fn init_minus_one() {
    assert_eq!(Q::try_from((&-1, &1)).unwrap(), Q::minus_one());
}
