//! Frozen witness inputs for the three regression properties.

use nom::etna::{
    property_count_handles_zero_sized_output, property_float_parses_infinity_fully,
    property_multispace0_consumes_all_whitespace, PropertyResult,
};

fn expect_pass(r: PropertyResult, what: &str) {
    match r {
        PropertyResult::Pass => {}
        PropertyResult::Fail(m) => panic!("{what}: property failed: {m}"),
        PropertyResult::Discard => panic!("{what}: unexpected discard"),
    }
}

/// The conversion of recognized float text to `f32`, as std does it.
fn f32_outcome(text: &str) -> Option<(bool, String)> {
    text.parse::<f32>().ok().map(|v| (v.is_infinite(), v.to_string()))
}

#[test]
fn witness_multispace0_consumes_all_whitespace_case_newline_only() {
    expect_pass(
        property_multispace0_consumes_all_whitespace(vec![2u8]),
        "multispace0_consumes_all_whitespace / newline_only",
    );
}

#[test]
fn witness_multispace0_consumes_all_whitespace_case_mixed_ws() {
    expect_pass(
        property_multispace0_consumes_all_whitespace(vec![0u8, 1u8, 2u8, 3u8]),
        "multispace0_consumes_all_whitespace / mixed_ws",
    );
}

#[test]
fn witness_float_parses_infinity_fully_case_lowercase() {
    expect_pass(
        property_float_parses_infinity_fully(vec![0u8], f32_outcome),
        "float_parses_infinity_fully / lowercase",
    );
}

#[test]
fn witness_float_parses_infinity_fully_case_mixed_case() {
    expect_pass(
        property_float_parses_infinity_fully(vec![3u8], f32_outcome),
        "float_parses_infinity_fully / mixed_case",
    );
}

#[test]
fn witness_count_handles_zero_sized_output_case_three_abc() {
    expect_pass(
        property_count_handles_zero_sized_output(2u8),
        "count_handles_zero_sized_output / three_abc",
    );
}

#[test]
fn every_infinity_casing_passes_the_float_property() {
    for seed in 0u8..12 {
        expect_pass(property_float_parses_infinity_fully(vec![seed], f32_outcome), "float / all casings");
    }
    expect_pass(property_float_parses_infinity_fully(vec![], f32_outcome), "float / empty payload");
}

#[test]
fn multispace0_property_passes_on_long_and_empty_payloads() {
    expect_pass(property_multispace0_consumes_all_whitespace(vec![]), "empty payload");
    expect_pass(
        property_multispace0_consumes_all_whitespace((0u8..40).collect()),
        "long payload",
    );
}

#[test]
fn count_property_passes_for_every_repeat() {
    for r in 0u8..=255 {
        expect_pass(property_count_handles_zero_sized_output(r), "count / every repeat");
    }
}

#[test]
fn float_property_reports_what_the_conversion_says() {
    let finite = |_: &str| Some((false, "1".to_string()));
    match property_float_parses_infinity_fully(vec![1u8], finite) {
        PropertyResult::Fail(m) => {
            assert_eq!(m, "float(\"Infinity\") parsed value 1 is not infinite")
        }
        _ => panic!("a finite value must fail the property"),
    }
    let failing = |_: &str| None;
    match property_float_parses_infinity_fully(vec![], failing) {
        PropertyResult::Fail(m) => assert_eq!(
            m,
            "float(\"infinity\") errored: Error(Error { input: \"\", code: Float })"
        ),
        _ => panic!("a failed conversion must fail the property"),
    }
}
