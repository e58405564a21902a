use contrast_compare::error::ContrastError;
use contrast_compare::parse::parse_contrast;

#[test]
fn rejects_value_above_range() {
    assert_eq!(parse_contrast("101"), Err(ContrastError::OutOfRange));
}

#[test]
fn rejects_value_below_range() {
    assert_eq!(parse_contrast("-101"), Err(ContrastError::OutOfRange));
}

#[test]
fn rejects_non_integer() {
    assert_eq!(parse_contrast("abc"), Err(ContrastError::InputParse));
}

#[test]
fn rejects_empty_and_bare_signs() {
    assert_eq!(parse_contrast(""), Err(ContrastError::InputParse));
    assert_eq!(parse_contrast("+"), Err(ContrastError::InputParse));
    assert_eq!(parse_contrast("-"), Err(ContrastError::InputParse));
}

#[test]
fn rejects_inner_junk() {
    assert_eq!(parse_contrast("1 0"), Err(ContrastError::InputParse));
    assert_eq!(parse_contrast("1.5"), Err(ContrastError::InputParse));
    assert_eq!(parse_contrast("--5"), Err(ContrastError::InputParse));
}

#[test]
fn accepts_bounds_and_zero() {
    assert_eq!(parse_contrast("100"), Ok(100));
    assert_eq!(parse_contrast("-100"), Ok(-100));
    assert_eq!(parse_contrast("0"), Ok(0));
    assert_eq!(parse_contrast("+7"), Ok(7));
    assert_eq!(parse_contrast("007"), Ok(7));
    assert_eq!(parse_contrast("-0"), Ok(0));
}

#[test]
fn sixteen_bit_value_out_of_range_is_range_error() {
    assert_eq!(parse_contrast("30000"), Err(ContrastError::OutOfRange));
    assert_eq!(parse_contrast("32767"), Err(ContrastError::OutOfRange));
    assert_eq!(parse_contrast("-32768"), Err(ContrastError::OutOfRange));
}

#[test]
fn overflow_of_sixteen_bits_is_parse_error() {
    assert_eq!(parse_contrast("32768"), Err(ContrastError::InputParse));
    assert_eq!(parse_contrast("-32769"), Err(ContrastError::InputParse));
    assert_eq!(parse_contrast("40000"), Err(ContrastError::InputParse));
    assert_eq!(
        parse_contrast("99999999999999999999"),
        Err(ContrastError::InputParse)
    );
}
