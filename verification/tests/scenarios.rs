use qfall_math::error::MathError;
use qfall_math::integer::poly_over_z::PolyOverZ;
use qfall_math::integer::z::Z;
use qfall_math::integer_mod_q::mat_zq::MatZq;
use qfall_math::integer_mod_q::zq::Zq;
use qfall_math::rational::poly_over_q::PolyOverQ;
use qfall_math::rational::q::Q;
use qfall_math::traits::GetCoefficient;
use qfall_math::traits::SetCoefficient;

/// an index beyond the stored length yields the additive identity, not an
/// error
#[test]
fn coefficient_beyond_length_is_zero() {
    let poly = PolyOverZ::from_str("4  0 1 2 3").unwrap();

    assert_eq!(Z::zero(), poly.get_coeff(4).unwrap());
    assert_eq!(
        Err(MathError::RangeError),
        GetCoefficient::<Z>::get_coeff(&poly, -1)
    );
}

/// a large unreduced fraction reduces and round-trips through its text form
#[test]
fn large_fraction_round_trip() {
    let q = Q::from_str("-18446744073709551615/1").unwrap();

    assert_eq!("-18446744073709551615", q.to_string());
    assert_eq!(q, Q::from_str(&q.to_string()).unwrap());
}

/// a modular matrix built from out-of-range text serializes its reduced
/// representatives
#[test]
fn modular_matrix_reduces_on_serialization() {
    let mat = MatZq::from_str("[[-17,-42,1],[-13,-5,-42]] mod 57").unwrap();

    assert_eq!("{\"matrix\":\"[[40,15,1],[44,52,15]] mod 57\"}", mat.serialize());
}

/// a binary numeral denotes the same integer as its fixed-width source
#[test]
fn binary_parse_equals_fixed_width() {
    assert_eq!(Z::from_str_b("100", 2).unwrap(), Z::from_i64(4));
}

/// a single space after the count is reported as the missing double-space
/// separator
#[test]
fn single_space_after_count_is_missing_separator() {
    assert_eq!(
        Err(MathError::MissingSeparator),
        PolyOverQ::from_str("3 1 2/5 -3/2")
    );
}

/// narrowing fails exactly on values outside the target range
#[test]
fn narrowing_checks_the_round_trip() {
    assert_eq!(
        Err(MathError::ConversionError),
        Z::from(u64::MAX).try_into_i64()
    );
    assert_eq!(Ok(42), Z::from(42).try_into_i64());
}

/// round trip: parsing a value's own canonical numeral yields the value, in
/// every base
#[test]
fn numeral_round_trip_all_bases() {
    let values: [i64; 6] = [0, 1, -1, 61, -4095, i64::MIN];
    for base in 2..=62 {
        for v in values {
            let z = Z::from_i64(v);
            let text = z.to_string_b(base).unwrap();
            assert_eq!(z, Z::from_str_b(&text, base).unwrap());
        }
    }
}

/// canonical idempotence: re-parsing canonical text re-serializes
/// byte-identically
#[test]
fn canonical_text_idempotent() {
    let z = Z::from_str("-90210").unwrap();
    let z_text = z.to_string();
    assert_eq!(z_text, Z::from_str(&z_text).unwrap().to_string());

    let q = Q::from_str("24/-42").unwrap();
    let q_text = q.to_string();
    assert_eq!("-4/7", q_text);
    assert_eq!(q_text, Q::from_str(&q_text).unwrap().to_string());

    let poly = PolyOverZ::from_str("3  1 2 -3").unwrap();
    let poly_text = poly.to_string();
    assert_eq!(poly_text, PolyOverZ::from_str(&poly_text).unwrap().to_string());

    let mat = MatZq::from_str("[[1, -2],[3, 4]] mod 7").unwrap();
    let mat_text = mat.to_string();
    assert_eq!("[[1,5],[3,4]] mod 7", mat_text);
    assert_eq!(mat_text, MatZq::from_str(&mat_text).unwrap().to_string());
}

/// modular reduction: the representative lies in range and is congruent
#[test]
fn modular_reduction_in_range() {
    let cases: [(i64, u64); 5] = [(-17, 57), (0, 1), (i64::MIN, 3), (56, 57), (-1, 57)];
    for (v, m) in cases {
        let zq = Zq::try_from((v, m)).unwrap();
        let rep = Z::from_zq(zq.clone());
        let rep_i64 = rep.try_into_i64().unwrap();
        assert!(0 <= rep_i64 && (rep_i64 as u64) < m);
        assert_eq!((v.rem_euclid(m as i64)), rep_i64);
    }
    assert_eq!(Err(MathError::InvalidModulus), Zq::try_from((3, 0)));
}

/// trimming: setting the highest coefficient to zero shrinks the length
/// until the highest coefficient is non-zero or the polynomial is empty
#[test]
fn set_coefficient_trims() {
    let mut poly = PolyOverZ::from_str("4  1 0 2 3").unwrap();

    poly.set_coeff(3, Z::zero()).unwrap();
    assert_eq!("3  1 0 2", poly.to_string());

    poly.set_coeff(2, Z::zero()).unwrap();
    assert_eq!("1  1", poly.to_string());

    poly.set_coeff(0, Z::zero()).unwrap();
    assert_eq!("0", poly.to_string());

    let mut growing = PolyOverZ::from_str("0").unwrap();
    growing.set_coeff(2, Z::from(5)).unwrap();
    assert_eq!("3  0 0 5", growing.to_string());
    assert_eq!(Err(MathError::RangeError), growing.set_coeff(-1, Z::zero()));
}

/// a zq text reduces its value and keeps its modulus
#[test]
fn zq_from_str_reduces() {
    let zq = Zq::from_str("13 mod 17").unwrap();
    assert_eq!("13 mod 17", zq.to_string());

    let neg = Zq::from_str("-4 mod 17").unwrap();
    assert_eq!("13 mod 17", neg.to_string());
    assert_eq!(zq, neg);

    assert_eq!(Err(MathError::MalformedInput), Zq::from_str("13 mod 0"));
    assert_eq!(Err(MathError::MalformedInput), Zq::from_str("13 mod -5"));
    assert_eq!(Err(MathError::MalformedInput), Zq::from_str("13"));
}
