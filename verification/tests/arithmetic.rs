use qfall_math::error::MathError;
use qfall_math::integer::poly_over_z::PolyOverZ;
use qfall_math::integer::z::Z;
use qfall_math::integer_mod_q::modulus_polynomial_ring_zq::ModulusPolynomialRingZq;
use qfall_math::integer_mod_q::mat_zq::MatZq;
use qfall_math::integer_mod_q::zq::Zq;
use qfall_math::rational::mat_q::MatQ;
use qfall_math::rational::poly_over_q::PolyOverQ;
use qfall_math::rational::q::Q;
use qfall_math::traits::Concatenate;
use qfall_math::traits::Distance;
use qfall_math::traits::Evaluate;
use qfall_math::traits::Gcd;
use qfall_math::traits::GetCoefficient;
use qfall_math::traits::GetEntry;
use qfall_math::traits::GetNumColumns;
use qfall_math::traits::GetNumRows;
use qfall_math::traits::Lcm;
use qfall_math::traits::Pow;
use qfall_math::traits::SetEntry;
use qfall_math::traits::Tensor;
use qfall_math::traits::Xgcd;

/// all four ownership forms of an integer operator produce equal results
/// for equal operand values
#[test]
fn operator_forms_own_type() {
    let a = Z::from(17);
    let b = Z::from(-5);
    let expected = Z::from(12);

    assert_eq!(expected, a.clone() + b.clone());
    assert_eq!(expected, a.clone() + &b);
    assert_eq!(expected, &a + b.clone());
    assert_eq!(expected, &a + &b);

    let expected = Z::from(22);
    assert_eq!(expected, a.clone() - b.clone());
    assert_eq!(expected, a.clone() - &b);
    assert_eq!(expected, &a - b.clone());
    assert_eq!(expected, &a - &b);

    let expected = Z::from(-85);
    assert_eq!(expected, a.clone() * b.clone());
    assert_eq!(expected, a.clone() * &b);
    assert_eq!(expected, &a * b.clone());
    assert_eq!(expected, &a * &b);
}

/// all eight cross-type forms of an integer operator produce equal results
/// for equal operand values
#[test]
fn operator_forms_absorbed_type() {
    let a = Z::from(17);
    let b: i64 = -5;
    let expected = Z::from(12);

    assert_eq!(expected, a.clone() + b);
    assert_eq!(expected, a.clone() + &b);
    assert_eq!(expected, &a + b);
    assert_eq!(expected, &a + &b);
    assert_eq!(expected, b + a.clone());
    assert_eq!(expected, b + &a);
    assert_eq!(expected, &b + a.clone());
    assert_eq!(expected, &b + &a);

    let expected = Z::from(22);
    assert_eq!(expected, a.clone() - b);
    assert_eq!(expected, &a - &b);
    let expected = Z::from(-22);
    assert_eq!(expected, b - a.clone());
    assert_eq!(expected, &b - &a);

    let expected = Z::from(-85);
    assert_eq!(expected, a.clone() * b);
    assert_eq!(expected, &a * &b);
    assert_eq!(expected, b * a.clone());
    assert_eq!(expected, &b * &a);
}

/// rational arithmetic keeps results in lowest terms in all four forms
#[test]
fn rational_operator_forms() {
    let a = Q::from_str("1/6").unwrap();
    let b = Q::from_str("1/3").unwrap();
    let expected = Q::from_str("1/2").unwrap();

    assert_eq!(expected, a.clone() + b.clone());
    assert_eq!(expected, a.clone() + &b);
    assert_eq!(expected, &a + b.clone());
    assert_eq!(expected, &a + &b);

    assert_eq!(Q::from_str("-1/6").unwrap(), &a - &b);
    assert_eq!(Q::from_str("1/18").unwrap(), &a * &b);
}

/// the greatest common divisor is non-negative and `gcd(a, 0) == |a|`
#[test]
fn gcd_values() {
    assert_eq!(Z::from(6), Z::from(24).gcd(&Z::from(18)));
    assert_eq!(Z::from(6), Z::from(-24).gcd(Z::from(18)));
    assert_eq!(Z::from(24), Z::from(-24).gcd(&Z::zero()));
    assert_eq!(Z::zero(), Z::zero().gcd(&Z::zero()));
}

/// the least common multiple is non-negative and `lcm(a, 0) == 0`
#[test]
fn lcm_values() {
    assert_eq!(Z::from(72), Z::from(24).lcm(&Z::from(18)));
    assert_eq!(Z::from(72), Z::from(-24).lcm(Z::from(18)));
    assert_eq!(Z::zero(), Z::from(-24).lcm(&Z::zero()));
    assert_eq!(Z::zero(), Z::zero().lcm(&Z::zero()));
}

/// the extended gcd returns the gcd together with its Bezout coefficients
#[test]
fn xgcd_values() {
    let a = Z::from(240);
    let b = Z::from(46);
    let (g, x, y) = a.xgcd(&b);

    assert_eq!(Z::from(2), g);
    assert_eq!(g, a * x + b * y);

    let a = Z::from(-240);
    let b = Z::from(46);
    let (g, x, y) = a.xgcd(Z::from(46));

    assert_eq!(Z::from(2), g);
    assert_eq!(g, a * x + b * y);
}

/// the distance is the absolute difference
#[test]
fn distance_values() {
    assert_eq!(Z::from(7), Z::from(-3).distance(&Z::from(4)));
    assert_eq!(Z::from(7), Z::from(4).distance(Z::from(-3)));
    assert_eq!(Z::zero(), Z::from(4).distance(&Z::from(4)));
}

/// powers of a residue stay reduced
#[test]
fn zq_pow() {
    let base = Zq::from_str("3 mod 7").unwrap();
    assert_eq!(Zq::from_str("1 mod 7").unwrap(), base.pow(0u64).unwrap());
    assert_eq!(Zq::from_str("3 mod 7").unwrap(), base.pow(1u64).unwrap());
    assert_eq!(Zq::from_str("2 mod 7").unwrap(), base.pow(2u64).unwrap());
    assert_eq!(Zq::from_str("6 mod 7").unwrap(), base.pow(3u64).unwrap());
}

/// residue arithmetic reduces and rejects mismatched moduli
#[test]
fn zq_arithmetic() {
    let a = Zq::from_str("5 mod 7").unwrap();
    let b = Zq::from_str("4 mod 7").unwrap();
    let c = Zq::from_str("4 mod 11").unwrap();

    assert_eq!(Zq::from_str("2 mod 7").unwrap(), a.try_add(&b).unwrap());
    assert_eq!(Zq::from_str("1 mod 7").unwrap(), a.try_sub(&b).unwrap());
    assert_eq!(Zq::from_str("6 mod 7").unwrap(), a.try_mul(&b).unwrap());
    assert_eq!(Err(MathError::ModulusMismatch), a.try_add(&c));
    assert_eq!(Err(MathError::ModulusMismatch), a.try_sub(&c));
    assert_eq!(Err(MathError::ModulusMismatch), a.try_mul(&c));
}

/// polynomial evaluation follows Horner's rule
#[test]
fn poly_evaluate() {
    let poly = PolyOverZ::from_str("3  1 2 3").unwrap();

    // 1 + 2x + 3x^2 at x = 2 is 17
    assert_eq!(Z::from(17), poly.evaluate(&Z::from(2)));
    assert_eq!(Z::from(1), poly.evaluate(Z::zero()));
    assert_eq!(Z::from(2), PolyOverZ::from_str("0").unwrap().evaluate(&Z::from(9)) + 2);
}

/// matrix accessors, transposition, concatenation and the tensor product
#[test]
fn matrix_operations() {
    let mat = MatQ::from_str("[[1/2,0],[0,1]]").unwrap();
    assert_eq!(2, mat.get_num_rows());
    assert_eq!(2, mat.get_num_columns());
    assert_eq!(Q::from_str("1/2").unwrap(), mat.get_entry(0, 0).unwrap());
    assert!(mat.get_entry(2, 0).is_err());
    assert!(mat.get_entry(0, -1).is_err());

    let mut mat = mat;
    mat.set_entry(0, 1, Q::from_str("2/4").unwrap()).unwrap();
    assert_eq!("[[1/2,1/2],[0,1]]", mat.to_string());
    assert_eq!(
        Err(MathError::RangeError),
        mat.set_entry(5, 0, Q::one())
    );

    let t = mat.transpose();
    assert_eq!("[[1/2,0],[1/2,1]]", t.to_string());

    let a = MatQ::from_str("[[1,2]]").unwrap();
    let b = MatQ::from_str("[[3,4]]").unwrap();
    assert_eq!(
        "[[1,2],[3,4]]",
        a.clone().concat_vertical(b.clone()).unwrap().to_string()
    );
    assert_eq!(
        "[[1,2,3,4]]",
        a.clone().concat_horizontal(b.clone()).unwrap().to_string()
    );
    let col = MatQ::from_str("[[1],[2]]").unwrap();
    assert_eq!(
        Err(MathError::DimensionError),
        col.clone().concat_vertical(a.clone())
    );
    assert_eq!(Err(MathError::DimensionError), a.clone().concat_horizontal(col.clone()));

    assert!(MatQ::from_str("[[1,2]]").unwrap().is_row_vector());
    assert!(!col.is_row_vector());
    assert!(col.is_column_vector());

    let kron = a.tensor(&b);
    assert_eq!("[[3,4,6,8]]", kron.to_string());
    let half = MatQ::from_str("[[1/2]]").unwrap();
    let two_thirds = MatQ::from_str("[[2/3]]").unwrap();
    assert_eq!("[[1/3]]", half.tensor(&two_thirds).to_string());
    let left = MatQ::from_str("[[1],[2]]").unwrap();
    let right = MatQ::from_str("[[0,1]]").unwrap();
    assert_eq!("[[0,1],[0,2]]", left.tensor(&right).to_string());
}

/// matrices reject ragged rows and garbage
#[test]
fn matrix_parse_errors() {
    assert_eq!(
        Err(MathError::MalformedInput),
        MatQ::from_str("[[1,2],[3]]")
    );
    assert!(MatQ::from_str("[]").is_err());
    assert!(MatQ::from_str("1,2").is_err());
    assert!(MatQ::from_str("[[1,2]").is_err());
}

/// a ring modulus reduces its polynomial and rejects degenerate ones
#[test]
fn ring_modulus_context() {
    let ring = ModulusPolynomialRingZq::from_str("3  1 0 1 mod 17").unwrap();
    assert_eq!(Z::from(17), ring.get_q());
    assert_eq!(PolyOverZ::from_str("3  1 0 1").unwrap(), ring.get_poly());

    // the leading coefficient vanishes modulo 2, leaving a constant
    assert_eq!(
        Err(MathError::InvalidModulus),
        ModulusPolynomialRingZq::from_str("3  1 0 2 mod 2")
    );
    assert_eq!(
        Err(MathError::MalformedInput),
        ModulusPolynomialRingZq::from_str("3  1 0 1 mod 0")
    );

    let other = ModulusPolynomialRingZq::from_str("3  18 0 18 mod 17").unwrap();
    assert_eq!(ring, other);
}

/// modular matrix entry access reduces stored values
#[test]
fn mat_zq_entries() {
    let mut mat = MatZq::from_str("[[1,2],[3,4]] mod 7").unwrap();
    assert_eq!(2, mat.get_num_rows());
    assert_eq!(2, mat.get_num_columns());
    assert_eq!(Z::from(4), mat.get_entry(1, 1).unwrap());
    assert!(mat.get_entry(2, 0).is_err());

    mat.set_entry(0, 0, Z::from(-1)).unwrap();
    assert_eq!(Z::from(6), mat.get_entry(0, 0).unwrap());
    assert_eq!("[[6,2],[3,4]] mod 7", mat.to_string());
    assert_eq!(
        Err(MathError::RangeError),
        mat.set_entry(0, 9, Z::zero())
    );
}

/// rational polynomials evaluate by Horner's rule in lowest terms
#[test]
fn poly_q_evaluate() {
    // 1/2 + (3/2)x at x = 1/3 is 1
    let poly = PolyOverQ::from_str("2  1/2 3/2").unwrap();
    assert_eq!(Q::one(), poly.evaluate(&Q::from_str("1/3").unwrap()));
    assert_eq!(Q::from_str("1/2").unwrap(), poly.evaluate(Q::zero()));
    assert_eq!(
        Q::from_str("3/2").unwrap(),
        GetCoefficient::<Q>::get_coeff(&poly, 1).unwrap()
    );
    assert_eq!(Q::zero(), GetCoefficient::<Q>::get_coeff(&poly, 9).unwrap());
}
