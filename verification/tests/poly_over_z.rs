use qfall_math::integer::poly_over_z::PolyOverZ;
use qfall_math::integer::z::Z;
use qfall_math::traits::GetCoefficient;

/// tests whether a polynomial that is created using a string, returns the
/// same string, when it is converted back to a string
#[test]
fn working_keeps_same_string() {
    let cmp_string = "3  1 2 -3";
    let cmp = PolyOverZ::from_str(cmp_string).unwrap();

    assert_eq!(cmp_string, cmp.to_string())
}

/// tests whether a polynomial that is created using a string, returns a
/// string that can be used to create a polynomial
#[test]
fn working_use_result_of_to_string_as_input() {
    let cmp_string = "3  1 2 -3";
    let cmp = PolyOverZ::from_str(cmp_string).unwrap();

    let cmp_string2 = cmp.to_string();

    assert!(PolyOverZ::from_str(&cmp_string2).is_ok())
}

/// tests whether large entries are correctly converted using to_string
#[test]
fn large_entries() {
    let cmp_string = format!("3  1 {} -{}", u64::MAX, u64::MAX);
    let cmp = PolyOverZ::from_str(&cmp_string).unwrap();

    let cmp_string2 = cmp.to_string();

    assert!(PolyOverZ::from_str(&cmp_string2).is_ok())
}

/// ensure that 0 is returned if the provided index is not yet set
#[test]
fn index_out_of_range() {
    let poly = PolyOverZ::from_str("4  0 1 2 3").unwrap();

    let zero_coeff = poly.get_coeff(4).unwrap();

    assert_eq!(Z::zero(), zero_coeff)
}

/// tests if negative coefficients are returned correctly
#[test]
fn negative_coeff() {
    let poly = PolyOverZ::from_str("4  0 1 2 -3").unwrap();

    let coeff = poly.get_coeff(3).unwrap();

    assert_eq!(Z::from(-3), coeff)
}

/// tests if positive coefficients are returned correctly
#[test]
fn positive_coeff() {
    let poly = PolyOverZ::from_str("4  0 1 2 -3").unwrap();

    let coeff = poly.get_coeff(2).unwrap();

    assert_eq!(Z::from(2), coeff)
}

/// tests if large coefficients are returned correctly
#[test]
fn large_coeff() {
    let large_string = format!("2  {} {}", u64::MAX, i64::MIN);
    let poly = PolyOverZ::from_str(&large_string).unwrap();

    assert_eq!(Z::from(u64::MAX), poly.get_coeff(0).unwrap());
    assert_eq!(Z::from(i64::MIN), poly.get_coeff(1).unwrap());
}

/// tests if large negative coefficients are returned correctly
#[test]
fn large_coeff_neg() {
    let large_string = format!("2  -{} {}", u64::MAX, i64::MIN);
    let poly = PolyOverZ::from_str(&large_string).unwrap();

    assert_eq!(
        Z::from_str(&format!("-{}", u64::MAX)).unwrap(),
        poly.get_coeff(0).unwrap()
    );
    assert_eq!(Z::from(i64::MIN), poly.get_coeff(1).unwrap());
}
