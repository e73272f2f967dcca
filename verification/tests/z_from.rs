use qfall_math::error::MathError;
use qfall_math::integer::z::Z;
use qfall_math::integer_mod_q::modulus::Modulus;
use qfall_math::integer_mod_q::zq::Zq;

/// Ensure that initialization with large numbers works.
#[test]
fn from_i64_max_positive() {
    Z::from_i64(i64::MAX);
}

/// Ensure that initialization with large negative numbers works.
#[test]
fn from_i64_max_negative() {
    Z::from_i64(i64::MIN);
}

/// Ensure that the `From` trait is available for i64 values
#[test]
fn from_i64_trait() {
    let _ = Z::from(-10i64);
}

/// Ensure that the `from_<type_name>` functions are available for
/// signed and unsigned integers of 8, 16, 32, and 64 bit length.
#[test]
fn from_functions_max() {
    // signed
    let _ = Z::from_i8(i8::MAX);
    let _ = Z::from_i16(i16::MAX);
    let _ = Z::from_i32(i32::MAX);
    let _ = Z::from_i64(i64::MAX);

    // unsigned
    let _ = Z::from_u8(u8::MAX);
    let _ = Z::from_u16(u16::MAX);
    let _ = Z::from_u32(u32::MAX);
    let _ = Z::from_u64(u64::MAX);
}

/// Ensure that the `From` trait is available for signed and unsigned
/// integers of 8, 16, 32, and 64 bit length. Tested with their maximum value.
#[test]
fn from_trait_max() {
    // signed
    let _ = Z::from(i8::MAX);
    let _ = Z::from(i16::MAX);
    let _ = Z::from(i32::MAX);
    let _ = Z::from(i64::MAX);

    // unsigned
    let _ = Z::from(u8::MAX);
    let _ = Z::from(u16::MAX);
    let _ = Z::from(u32::MAX);
    let _ = Z::from(u64::MAX);
}

/// Ensure that the `From` trait is available for signed and unsigned
/// integers of 8, 16, 32, and 64 bit length. Tested with their minimum value.
#[test]
fn from_trait_min() {
    // signed
    let _ = Z::from(i8::MIN);
    let _ = Z::from(i16::MIN);
    let _ = Z::from(i32::MIN);
    let _ = Z::from(i64::MIN);

    // unsigned
    let _ = Z::from(u8::MIN);
    let _ = Z::from(u16::MIN);
    let _ = Z::from(u32::MIN);
    let _ = Z::from(u64::MIN);
}

/// Ensure that initialization with large numbers works.
#[test]
fn max_int_positive() {
    assert!(Z::from_str(&(i64::MAX).to_string()).is_ok());
}

/// Ensure that initialization with large numbers (larger than i64) works.
#[test]
fn big_positive() {
    assert!(Z::from_str(&"1".repeat(65)).is_ok());
}

/// Ensure that initialization with large negative numbers works.
#[test]
fn max_int_negative() {
    assert!(Z::from_str(&(i64::MIN).to_string()).is_ok());
}

/// Ensure that initialization with large negative numbers (larger than i64) works.
#[test]
fn big_negative() {
    let mut s = "-".to_string();
    s.push_str(&"1".repeat(65));

    assert!(Z::from_str(&s).is_ok());
}

/// Ensure that wrong initialization yields an Error.
#[test]
fn error_wrong_letters() {
    assert!(Z::from_str("hbrkt35itu3gg").is_err());
}

/// Ensure that wrong initialization yields an Error.
#[test]
fn error_wrong_order() {
    assert!(Z::from_str("3-2").is_err());
}

/// Ensure that wrong initialization yields an Error.
#[test]
fn error_rational() {
    assert!(Z::from_str("876/543").is_err());
}

/// Ensure that wrong initialization yields an Error.
#[test]
fn whitespace_mid() {
    assert!(Z::from_str("876 543").is_err());
}

/// Ensure that wrong initialization yields an Error.
#[test]
fn whitespace_start() {
    assert!(Z::from_str(" 876543").is_err());
}

/// Ensure that wrong initialization yields an Error.
#[test]
fn whitespace_end() {
    assert!(Z::from_str("876543 ").is_err());
}

/// Ensure that wrong initialization yields an Error.
#[test]
fn whitespace_minus() {
    assert!(Z::from_str("- 876543").is_err());
}

/// ensure that an error is returned, if an invalid base is provided
#[test]
fn from_out_of_bounds() {
    let value = "100010";

    assert!(Z::from_str_b(value, -1).is_err());
    assert!(Z::from_str_b(value, 0).is_err());
    assert!(Z::from_str_b(value, 1).is_err());
    assert!(Z::from_str_b(value, 63).is_err());
}

/// ensure that from_str works with a binary-string
#[test]
fn from_str_binary() {
    assert_eq!(Z::from(20), Z::from_str_b("10100", 2).unwrap());
    assert_eq!(Z::from(-20), Z::from_str_b("-10100", 2).unwrap());
}

/// ensure that from_str works with a hex-string
#[test]
fn from_str_hex() {
    assert_eq!(Z::from(160), Z::from_str_b("a0", 16).unwrap());
    assert_eq!(Z::from(-170), Z::from_str_b("-aa", 16).unwrap());
}

/// Ensure that `from_modulus` is available for small and large numbers
#[test]
fn large_and_small_numbers() {
    let mod_1 = Modulus::from_str(&"1".repeat(65)).unwrap();
    let mod_2 = Modulus::from_str("10").unwrap();

    let _ = Z::from_modulus(mod_1);
    let _ = Z::from_modulus(mod_2);
}

/// Ensure that the `From` trait is available for large `Modulus` instances
#[test]
fn from_from_trait() {
    let mod_1 = Modulus::from_str(&"1".repeat(65)).unwrap();
    let mod_2 = Modulus::from_str("10").unwrap();

    let _ = Z::from(mod_1);
    let _ = Z::from(mod_2);
}

/// Ensure that the `from_zq` function is available and works correctly for
/// small and large `Zq` entries.
#[test]
fn from_large_small_numbers() {
    let zq_1 = Zq::try_from((i64::MAX, u64::MAX)).unwrap();
    let zq_2 = Zq::try_from((17, u64::MAX)).unwrap();

    assert_eq!(Z::from(i64::MAX), Z::from_zq(zq_1));
    assert_eq!(Z::from(17), Z::from_zq(zq_2));
}

/// Ensure that the `From` trait is available for small and large
/// `Zq` instances.
#[test]
fn zq_from_trait() {
    let zq_1 = Zq::try_from((i64::MAX, u64::MAX)).unwrap();
    let zq_2 = Zq::try_from((17, u64::MAX)).unwrap();

    assert_eq!(Z::from(i64::MAX), Z::from(zq_1));
    assert_eq!(Z::from(17), Z::from(zq_2));
}

/// ensure that an error is returned, if the value of the `Z`
/// does not fit into an i64
#[test]
fn overflow() {
    assert!(Z::from(u64::MAX).try_into_i64().is_err());
    assert!((-1 * Z::from(u64::MAX)).try_into_i64().is_err());
}

/// ensure that a correct value is returned for values in bounds.
#[test]
fn correct() {
    let min = Z::from(i64::MIN);
    let max = Z::from(i64::MAX);
    let z_42 = Z::from(42);

    assert_eq!(i64::MIN, min.try_into_i64().unwrap());
    assert_eq!(i64::MAX, max.try_into_i64().unwrap());
    assert_eq!(0, Z::zero().try_into_i64().unwrap());
    assert_eq!(42, z_42.try_into_i64().unwrap());
}

/// the narrowing failure is reported as a conversion error
#[test]
fn conversion_error_kind() {
    assert_eq!(
        Z::from(u64::MAX).try_into_i64(),
        Err(MathError::ConversionError)
    );
}
