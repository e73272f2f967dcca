use qfall_math::rational::poly_over_q::PolyOverQ;

/// Ensure that zero-coefficients are reduced
#[test]
fn reduce_zero_coeff() {
    let one_1 = PolyOverQ::from_str("2  24/42 1").unwrap();
    let one_2 = PolyOverQ::from_str("3  24/42 1 0").unwrap();

    assert_eq!(one_1, one_2)
}

/// Ensure that coefficients in the string are reduced
#[test]
fn reduce_coeff() {
    assert_eq!(
        PolyOverQ::from_str("3  4/77 4/14 -28/21").unwrap(),
        PolyOverQ::from_str("3  4/77 2/7 -28/21").unwrap()
    );
}

/// tests whether the same string yields the same polynomial
#[test]
fn same_string() {
    let str = format!("3  1 2/3 {}/{}", u64::MAX, i64::MIN);

    let poly_1 = PolyOverQ::from_str(&str).unwrap();
    let poly_2 = PolyOverQ::from_str(&str).unwrap();

    assert_eq!(poly_1, poly_2)
}

/// tests whether a correctly formatted string outputs an instantiation of a
/// polynomial, i.e. does not return an error
#[test]
fn working_example() {
    assert!(PolyOverQ::from_str("3  1 2/5 -3/2").is_ok());
}

/// tests whether a falsely formatted string (missing double-space) returns
/// an error
#[test]
fn missing_whitespace() {
    assert!(PolyOverQ::from_str("3 1 2/5 -3/2").is_err());
}

/// tests whether a falsely formatted string (too many whitespaces) returns
/// an error
#[test]
fn too_many_whitespaces() {
    assert!(PolyOverQ::from_str("3  1  2/5  -3/2").is_err());
}

/// tests whether a falsely formatted string (wrong number of total
/// coefficients) returns an error
#[test]
fn false_number_of_coefficient() {
    assert!(PolyOverQ::from_str("4  1 2/5 -3/2").is_err());
}

/// tests whether a falsely formatted string (too many divisors) returns
/// an error
#[test]
fn too_many_divisors() {
    assert!(PolyOverQ::from_str("3  1 2/5 -3/2/3").is_err());
}
