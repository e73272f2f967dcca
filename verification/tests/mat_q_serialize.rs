use qfall_math::rational::mat_q::MatQ;

/// tests whether the serialization of a positive `MatQ` works.
#[test]
fn serialize_serialize_output_positive() {
    let mat_poly_str = "[[17/3, 42/17],[1/3, 17/13]]";
    let mat_poly_z = MatQ::from_str(mat_poly_str).unwrap();
    let cmp_string = "{\"matrix\":\"[[17/3,42/17],[1/3,17/13]]\"}";

    assert_eq!(cmp_string, mat_poly_z.serialize())
}

/// tests whether the serialization of a negative `MatQ` works.
#[test]
fn serialize_serialize_output_negative() {
    let mat_poly_str = "[[17/3, -42/17],[1/3, -17/13]]";
    let mat_poly_z = MatQ::from_str(mat_poly_str).unwrap();
    let cmp_string = "{\"matrix\":\"[[17/3,-42/17],[1/3,-17/13]]\"}";

    assert_eq!(cmp_string, mat_poly_z.serialize())
}

/// tests whether the serialization of a positive large `MatQ` works.
#[test]
fn serialize_serialize_output_positive_large() {
    let mat_poly_str = format!("[[3, 17, {}/2, 1, 2, 13/{}, 5]]", u64::MAX, u64::MAX);
    let mat_poly_z = MatQ::from_str(&mat_poly_str).unwrap();
    let cmp_string = format!(
        "{{\"matrix\":\"[[3,17,{}/2,1,2,13/{},5]]\"}}",
        u64::MAX,
        u64::MAX
    );

    assert_eq!(cmp_string, mat_poly_z.serialize())
}

/// tests whether the serialization of a negative large `MatQ` works.
#[test]
fn serialize_serialize_output_negative_large() {
    let mat_poly_str = format!("[[3, -17, -{}/2, 1, 2, -13/{}, 5]]", u64::MAX, u64::MAX);
    let mat_poly_z = MatQ::from_str(&mat_poly_str).unwrap();
    let cmp_string = format!(
        "{{\"matrix\":\"[[3,-17,-{}/2,1,2,-13/{},5]]\"}}",
        u64::MAX,
        u64::MAX
    );

    assert_eq!(cmp_string, mat_poly_z.serialize())
}

/// tests whether the deserialization of a positive `MatQ` works.
#[test]
fn serialize_deserialize_positive() {
    let mat_poly_str = "[[17, 42/17],[1, 17/3]]";
    let cmp_string = format!("{{\"matrix\":\"{}\"}}", mat_poly_str);

    let mat_poly_z = MatQ::from_str(mat_poly_str).unwrap();
    assert_eq!(mat_poly_z, MatQ::deserialize(&cmp_string).unwrap())
}

/// tests whether the deserialization of a negative `MatQ` works.
#[test]
fn serialize_deserialize_negative() {
    let mat_poly_str = "[[-17, -42/17, 1],[-13, -5, -42/3]]";
    let cmp_string = format!("{{\"matrix\":\"{}\"}}", mat_poly_str);

    let mat_poly_z = MatQ::from_str(mat_poly_str).unwrap();
    assert_eq!(mat_poly_z, MatQ::deserialize(&cmp_string).unwrap())
}

/// tests whether the deserialization of a positive large `MatQ` works.
#[test]
fn serialize_deserialize_positive_large() {
    let mat_poly_str = format!("[[3, 17, {}, 1, 2, 13/{}, 5]]", u64::MAX - 1, u64::MAX);
    let cmp_string = format!("{{\"matrix\":\"{}\"}}", mat_poly_str);

    let mat_poly_z = MatQ::from_str(&mat_poly_str).unwrap();
    assert_eq!(mat_poly_z, MatQ::deserialize(&cmp_string).unwrap())
}

/// tests whether the deserialization of a negative large `MatQ` works.
#[test]
fn serialize_deserialize_negative_large() {
    let mat_poly_str = format!("[[3, 17, -{}, 1, 2, -13/{}, -5]]", u64::MAX - 1, u64::MAX);
    let cmp_string = format!("{{\"matrix\":\"{}\"}}", mat_poly_str);

    let mat_poly_z = MatQ::from_str(&mat_poly_str).unwrap();
    assert_eq!(mat_poly_z, MatQ::deserialize(&cmp_string).unwrap())
}

/// tests whether no fields 'matrix' provided yield an error
#[test]
fn serialize_no_field_matrix() {
    let a = MatQ::deserialize("{{\"tree\":\"{[[2, 17, 42]] mod 57}\"}}");
    assert!(a.is_err());

    let b = MatQ::deserialize("{{}}");
    assert!(b.is_err());
}

/// tests whether too many fields yield an error
#[test]
fn serialize_too_many_fields() {
    let a = MatQ::deserialize(
        "{{\"tree\":\"{[[[2  17 42]]}\", \"matrix\":\"{[[2, 17, 42/13]]}\"}}",
    );
    assert!(a.is_err());

    let b = MatQ::deserialize(
        "{{\"matrix\":\"{[[1, 1]]}\", \"matrix\":\"{[[2, 17, -42/13]]}\"}}",
    );
    assert!(b.is_err());
}
