//! OIDs: construction, order, text and parsing.

use basic_snmp_agent::codec::OidErrorCategory;
use basic_snmp_agent::Oid;

// --- Oid construction ---

#[test]
fn oid_from_slice() {
    let oid = Oid::from_slice(&[1, 3, 6, 1]);
    assert_eq!(oid.as_slice(), &[1, 3, 6, 1]);
}

#[test]
fn oid_try_from_vec() {
    let oid = Oid::try_from(vec![1u32, 3, 6, 1, 2, 1]).unwrap();
    assert_eq!(oid.as_slice(), &[1, 3, 6, 1, 2, 1]);
}

#[test]
fn oid_try_from_vec_panics_on_empty() {
    assert!(Oid::try_from(vec![]).is_err());
}

// When first arc is 2, any u32 second arc is valid (BER uses base-128
// variable-length encoding for the combined 40*first+second value).
#[test]
fn oid_from_slice_arc2_second_arc_boundary() {
    // 40, 175, 176, and 999 are all valid when first is 2.
    let oid40 = Oid::from_slice(&[2, 40]);
    assert_eq!(oid40.as_slice(), &[2, 40]);
    let oid175 = Oid::from_slice(&[2, 175]);
    assert_eq!(oid175.as_slice(), &[2, 175]);
    let oid176 = Oid::from_slice(&[2, 176]);
    assert_eq!(oid176.as_slice(), &[2, 176]);
    let oid999 = Oid::from_slice(&[2, 999]);
    assert_eq!(oid999.as_slice(), &[2, 999]);
}

// --- TryFrom<Vec<u32>> ---

#[test]
fn oid_try_from_vec_success() {
    let oid = Oid::try_from(vec![1u32, 3, 6, 1]).unwrap();
    assert_eq!(oid.as_slice(), &[1, 3, 6, 1]);
}

#[test]
fn oid_try_from_vec_failure_second_too_large() {
    let oid_error = Oid::try_from(vec![0u32, 40]).unwrap_err();
    assert!(
        oid_error.to_string().contains("second OID component"),
        "unexpected error: {oid_error:?}"
    );
}

// --- Oid::Display ---

#[test]
fn oid_display_dotted_decimal() {
    let oid = Oid::from_slice(&[1, 3, 6, 1, 2, 1]);
    assert_eq!(oid.to_string(), "1.3.6.1.2.1");
}

// --- Oid::FromStr ---

#[test]
fn oid_parse_round_trip() {
    let input = "1.3.6.1.2.1";
    let oid: Oid = input.parse().unwrap();
    assert_eq!(oid.to_string(), input);
}

#[test]
fn oid_parse_error_single_component() {
    let parse_error = "42".parse::<Oid>().unwrap_err();
    assert!(
        parse_error.to_string().contains("at least two components"),
        "unexpected error: {parse_error:?}"
    );
}

#[test]
fn oid_parse_error_empty_string() {
    let parse_error = "".parse::<Oid>().unwrap_err();
    assert_eq!(parse_error.to_string(), "invalid OID: empty string");
}

#[test]
fn oid_parse_error_invalid_component() {
    let parse_error = "1.3.foo.1".parse::<Oid>().unwrap_err();
    assert!(
        parse_error.to_string().contains("invalid component"),
        "unexpected error: {parse_error:?}"
    );
    // The source error text must also appear in Display.
    assert!(
        parse_error
            .to_string()
            .contains("invalid digit found in string"),
        "expected chained source in Display, got: {parse_error:?}"
    );
}

#[test]
fn oid_parse_error_negative_component() {
    // Negative numbers are not valid OID components (u32 parse rejects them).
    let parse_error = "1.3.-1".parse::<Oid>().unwrap_err();
    assert!(
        parse_error.to_string().contains("invalid component"),
        "unexpected error: {parse_error:?}"
    );
}

#[test]
fn oid_parse_error_invalid_first_component() {
    let parse_error = "3.0".parse::<Oid>().unwrap_err();
    assert!(
        parse_error.to_string().contains("first OID component"),
        "unexpected error: {parse_error:?}"
    );
}

#[test]
fn oid_parse_error_second_component_too_large() {
    let parse_error = "0.40".parse::<Oid>().unwrap_err();
    assert!(
        parse_error.to_string().contains("second OID component"),
        "unexpected error: {parse_error:?}"
    );
}

#[test]
fn oid_parse_arc2_large_second_arc_accepted() {
    // 2.176 and 2.999 are valid OIDs: under the first arc 2 there is no limit.
    assert!("2.176".parse::<Oid>().is_ok());
    assert!("2.999".parse::<Oid>().is_ok());
}

#[test]
fn oid_parse_error_leading_dot() {
    let parse_error = ".1.3.6".parse::<Oid>().unwrap_err();
    assert_eq!(parse_error.to_string(), "invalid OID: leading dot");
}

#[test]
fn oid_parse_error_trailing_dot() {
    let parse_error = "1.3.6.".parse::<Oid>().unwrap_err();
    assert_eq!(parse_error.to_string(), "invalid OID: trailing dot");
}

#[test]
fn oid_parse_error_consecutive_dots() {
    let parse_error = "1..3.6.1".parse::<Oid>().unwrap_err();
    assert!(
        parse_error.to_string().contains("consecutive dots"),
        "unexpected error: {parse_error:?}"
    );
}

#[test]
fn oid_parse_double_dot_only_reports_leading_dot() {
    let parse_error = "..".parse::<Oid>().unwrap_err();
    assert_eq!(parse_error.category(), OidErrorCategory::LeadingDot);
    assert_eq!(parse_error.to_string(), "invalid OID: leading dot");
}

#[test]
fn oid_parse_trailing_double_dot_reports_trailing_dot() {
    let parse_error = "1..".parse::<Oid>().unwrap_err();
    assert_eq!(parse_error.category(), OidErrorCategory::TrailingDot);
    assert_eq!(parse_error.to_string(), "invalid OID: trailing dot");
}

// --- Leading zero tests ---

#[test]
fn oid_parse_error_leading_zero_in_component() {
    let parse_error = "1.3.06.1".parse::<Oid>().unwrap_err();
    assert_eq!(parse_error.category(), OidErrorCategory::LeadingZero);
    assert!(
        parse_error.to_string().contains("leading zero"),
        "unexpected error: {parse_error:?}"
    );
    assert!(
        parse_error.to_string().contains("\"06\""),
        "expected component name in error, got: {parse_error:?}"
    );
}

#[test]
fn oid_parse_zero_components_are_valid() {
    // "1.0.0" has bare zero components, which are legitimate.
    assert!("1.0.0".parse::<Oid>().is_ok());
}

// --- Leading-zero vs. invalid-component priority ---

#[test]
fn oid_parse_zero_followed_by_space_reports_invalid_component_not_leading_zero() {
    let parse_error = "1.3.0 .1".parse::<Oid>().unwrap_err();
    assert_eq!(parse_error.category(), OidErrorCategory::InvalidComponent);
    assert!(
        parse_error.to_string().contains("\"0 \""),
        "expected offending component in error, got: {parse_error:?}"
    );
}

// --- OidErrorCategory tests ---

#[test]
fn oid_error_category_empty_string() {
    let parse_error = "".parse::<Oid>().unwrap_err();
    assert_eq!(parse_error.category(), OidErrorCategory::EmptyString);
}

#[test]
fn oid_error_category_invalid_component() {
    let parse_error = "1.3.foo.1".parse::<Oid>().unwrap_err();
    assert_eq!(parse_error.category(), OidErrorCategory::InvalidComponent);
}

#[test]
fn oid_error_category_too_few_components() {
    let parse_error = "42".parse::<Oid>().unwrap_err();
    assert_eq!(parse_error.category(), OidErrorCategory::TooFewComponents);
}

#[test]
fn oid_error_category_invalid_first_arc() {
    let parse_error = "3.0".parse::<Oid>().unwrap_err();
    assert_eq!(parse_error.category(), OidErrorCategory::InvalidFirstArc);
}

#[test]
fn oid_error_category_invalid_second_arc() {
    let parse_error = "0.40".parse::<Oid>().unwrap_err();
    assert_eq!(parse_error.category(), OidErrorCategory::InvalidSecondArc);
}

// --- Oid::Ord ---

#[test]
fn oid_ord_different_last_component() {
    let a: Oid = "1.3.6".parse().unwrap();
    let b: Oid = "1.3.7".parse().unwrap();
    assert!(a < b);
}

#[test]
fn oid_ord_prefix_less_than_longer() {
    let shorter: Oid = "1.3.6".parse().unwrap();
    let longer: Oid = "1.3.6.1".parse().unwrap();
    assert!(shorter < longer);
}

#[test]
fn oid_ord_equal() {
    let a: Oid = "1.3.6.1".parse().unwrap();
    let b: Oid = "1.3.6.1".parse().unwrap();
    assert_eq!(a, b);
}

#[test]
fn oid_ord_first_component_differs() {
    let a: Oid = "1.3.6".parse().unwrap();
    let b: Oid = "2.0.0".parse().unwrap();
    assert!(a < b);
}

// --- ParseOidError ---

#[test]
fn parse_oid_error_source_is_some_for_invalid_component() {
    let parse_error = "1.3.foo".parse::<Oid>().unwrap_err();
    assert!(
        parse_error.source().is_some(),
        "expected a chained source error for an invalid component"
    );
}

#[test]
fn parse_oid_error_source_is_none_for_empty_string() {
    let parse_error = "".parse::<Oid>().unwrap_err();
    assert!(
        parse_error.source().is_none(),
        "expected no chained source error for an empty string"
    );
}

#[test]
fn parse_oid_error_source_is_none_for_structural_violation() {
    let parse_error = "3.0".parse::<Oid>().unwrap_err();
    assert!(
        parse_error.source().is_none(),
        "expected no chained source error for a structural violation"
    );
}

#[test]
fn given_first_arc_0_second_arc_39_when_parsed_then_succeeds() {
    let oid = "0.39.1".parse::<Oid>().unwrap();
    assert_eq!(oid.as_slice(), &[0, 39, 1]);
}

#[test]
fn given_first_arc_1_second_arc_39_when_parsed_then_succeeds() {
    let oid = "1.39.1".parse::<Oid>().unwrap();
    assert_eq!(oid.as_slice(), &[1, 39, 1]);
}
