//! The command line `θ1 ω1 θ2 ω2 [λ_threshold]`.

use double_pendulum_classifier::args::{decimal_string, missing_names, parse_args};

/// Default chaotic threshold of the command line.
const DEFAULT_THRESHOLD: f64 = 0.015;

/// Reads each argument as a float, as the command line does, and hands the
/// outcome to the library.
fn parse(args: &[String]) -> Result<([f64; 4], f64), String> {
    let parsed: Vec<Option<f64>> = args.iter().map(|a| a.parse::<f64>().ok()).collect();
    parse_args(&parsed, DEFAULT_THRESHOLD)
}

#[test]
fn integer_strings_parse_as_floats() {
    // Rust's `f64` `FromStr` accepts "5" without a decimal point and
    // yields 5.0, so the argument parser needs no special-casing.
    assert_eq!("5".parse::<f64>(), Ok(5.0));
    assert_eq!("5.0".parse::<f64>(), Ok(5.0));
}

#[test]
fn non_numeric_strings_fail_to_parse() {
    assert!("hi".parse::<f64>().is_err());
    assert!("five".parse::<f64>().is_err());
}

#[test]
fn two_args_with_an_invalid_float_report_the_exact_format() {
    let report = parse(&["hi".to_string(), "0.5".to_string()]).unwrap_err();
    assert_eq!(
        report,
        "Error:\n- θ1 is not a valid float.\n\nMissing Parameters:\n- θ2 ω2 [optional: λ_threshold]\n"
    );
}

#[test]
fn heading_is_plural_when_more_than_one_error() {
    let report = parse(&["hi".to_string(), "there".to_string(), "0.5".to_string()]).unwrap_err();
    assert!(
        report.starts_with("Errors:\n- θ1 is not a valid float.\n- ω1 is not a valid float.\n")
    );
}

#[test]
fn missing_only_when_all_given_args_are_valid() {
    let report = parse(&["1.0".to_string()]).unwrap_err();
    assert_eq!(
        report,
        "Missing Parameters:\n- ω1 θ2 ω2 [optional: λ_threshold]\n"
    );
}

#[test]
fn three_args_miss_only_omega2_and_the_optional_threshold() {
    let report = parse(&["1.0".to_string(), "0.0".to_string(), "0.5".to_string()]).unwrap_err();
    assert_eq!(report, "Missing Parameters:\n- ω2 [optional: λ_threshold]\n");
}

#[test]
fn four_valid_args_parse_to_a_state_and_default_threshold() {
    let (y0, threshold) = parse(&[
        "0.05".to_string(),
        "0.0".to_string(),
        "0.0".to_string(),
        "0.0".to_string(),
    ])
    .unwrap();
    assert_eq!(y0, [0.05, 0.0, 0.0, 0.0]);
    assert_eq!(threshold, DEFAULT_THRESHOLD);
}

#[test]
fn five_valid_args_parse_to_a_state_and_custom_threshold() {
    let (y0, threshold) = parse(&[
        "1.0".to_string(),
        "0.0".to_string(),
        "0.5".to_string(),
        "0.0".to_string(),
        "0.1".to_string(),
    ])
    .unwrap();
    assert_eq!(y0, [1.0, 0.0, 0.5, 0.0]);
    assert_eq!(threshold, 0.1);
}

#[test]
fn too_many_arguments_is_reported() {
    let report = parse(&vec!["1.0".to_string(); 6]).unwrap_err();
    assert!(report.contains("too many arguments"));
    assert!(report.contains("got 6"));
}

#[test]
fn an_invalid_fifth_argument_is_named_lambda_threshold() {
    let report = parse(&[
        "1.0".to_string(),
        "0.0".to_string(),
        "0.5".to_string(),
        "0.0".to_string(),
        "hi".to_string(),
    ])
    .unwrap_err();
    assert!(report.contains("- λ_threshold is not a valid float.\n"));
}

#[test]
fn too_many_arguments_report_is_exact() {
    let report = parse(&vec!["x".to_string(); 12]).unwrap_err();
    assert_eq!(
        report,
        "Error:\n- too many arguments: expected at most 5 (θ1 ω1 θ2 ω2 [λ_threshold]), got 12"
    );
}

#[test]
fn invalid_arguments_and_missing_ones_are_both_reported() {
    let report = parse(&["a".to_string(), "b".to_string(), "c".to_string()]).unwrap_err();
    assert_eq!(
        report,
        "Errors:\n- θ1 is not a valid float.\n- ω1 is not a valid float.\n- θ2 is not a valid float.\n\nMissing Parameters:\n- ω2 [optional: λ_threshold]\n"
    );
}

#[test]
fn invalid_arguments_without_missing_ones_have_no_blank_line() {
    let report = parse(&[
        "1.0".to_string(),
        "x".to_string(),
        "0.5".to_string(),
        "0.0".to_string(),
    ])
    .unwrap_err();
    assert_eq!(report, "Error:\n- ω1 is not a valid float.\n");
}

#[test]
fn generic_values_are_carried_through_unchanged() {
    let parsed = vec![Some(7u8), Some(8), Some(9), Some(10)];
    assert_eq!(parse_args(&parsed, 42u8), Ok(([7, 8, 9, 10], 42)));
    let parsed = vec![Some(7u8), Some(8), Some(9), Some(10), Some(11)];
    assert_eq!(parse_args(&parsed, 42u8), Ok(([7, 8, 9, 10], 11)));
}

#[test]
fn missing_names_cover_zero_to_three_arguments() {
    assert_eq!(missing_names(0), Some("θ1 ω1 θ2 ω2 [optional: λ_threshold]"));
    assert_eq!(missing_names(1), Some("ω1 θ2 ω2 [optional: λ_threshold]"));
    assert_eq!(missing_names(2), Some("θ2 ω2 [optional: λ_threshold]"));
    assert_eq!(missing_names(3), Some("ω2 [optional: λ_threshold]"));
    assert_eq!(missing_names(4), None);
    assert_eq!(missing_names(5), None);
}

#[test]
fn decimal_string_writes_plain_decimal() {
    assert_eq!(decimal_string(0), "0");
    assert_eq!(decimal_string(7), "7");
    assert_eq!(decimal_string(10), "10");
    assert_eq!(decimal_string(1234567890), "1234567890");
    assert_eq!(decimal_string(usize::MAX), usize::MAX.to_string());
}
