use qfall_math::integer::z::Z;

/// tests whether a large positive integer works in a roundtrip
#[test]
fn working_large_positive() {
    let cmp = Z::from(u64::MAX);

    assert_eq!(u64::MAX.to_string(), cmp.to_string())
}

/// tests whether a large negative integer works in a roundtrip
#[test]
fn working_large_negative() {
    let cmp = Z::from_str(&format!("-{}", u64::MAX)).unwrap();

    assert_eq!(format!("-{}", u64::MAX), cmp.to_string())
}

/// tests whether a positive integer works in a roundtrip
#[test]
fn working_positive() {
    let cmp = Z::from(42);

    assert_eq!("42", cmp.to_string())
}

/// tests whether a negative integer works in a roundtrip
#[test]
fn working_negative() {
    let cmp = Z::from(-42);

    assert_eq!("-42", cmp.to_string())
}

/// tests whether an integer that is created using a string, returns a
/// string that can be used to create a `Z`
#[test]
fn to_string_working_use_result_of_to_string_as_input() {
    let cmp = Z::from(42);

    let cmp_string2 = cmp.to_string();

    assert!(Z::from_str(&cmp_string2).is_ok())
}

/// ensure that an error is returned, if an invalid base is provided
#[test]
fn to_string_out_of_bounds() {
    let value = Z::from(42);

    assert!(value.to_string_b(-1).is_err());
    assert!(value.to_string_b(1).is_err());
    assert!(value.to_string_b(63).is_err());
}

/// ensure that binary representation works correctly
#[test]
fn binary() {
    let value_1 = Z::from(u64::MAX);
    let cmp_str_1 = "1".repeat(64);

    let value_2 = Z::from(i64::MIN);
    let cmp_str_2 = format!("-1{}", "0".repeat(63));

    assert_eq!(cmp_str_1, value_1.to_string_b(2).unwrap());
    assert_eq!(cmp_str_2, value_2.to_string_b(2).unwrap());
}
