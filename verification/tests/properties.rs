//! The pieces of the properties on concrete inputs.

use nom::error::{ErrorInfo, ErrorKind, ParseErr};
use nom::etna::{
    infinity_literal, judge_float_parse, pick_infinity_casing, sanitize_ws, PropertyResult,
};

fn fail_message(r: PropertyResult) -> String {
    match r {
        PropertyResult::Fail(m) => m,
        PropertyResult::Pass => panic!("expected a failure, got a pass"),
        PropertyResult::Discard => panic!("expected a failure, got a discard"),
    }
}

#[test]
fn sanitize_ws_maps_bytes_to_whitespace() {
    assert_eq!(sanitize_ws(&[0, 1, 2, 3, 4, 9]), " \t\n\r \t");
    assert_eq!(sanitize_ws(&[]), " ");
    let long: Vec<u8> = (0u8..40).collect();
    assert_eq!(sanitize_ws(&long), " \t\n\r".repeat(4));
}

#[test]
fn infinity_casings_follow_the_seed() {
    let expected = ["infinity", "Infinity", "INFINITY", "InFiNiTy", "iNFINITY", "infiNITY"];
    for seed in 0u8..=255 {
        assert_eq!(pick_infinity_casing(seed), expected[(seed % 6) as usize]);
    }
    assert_eq!(infinity_literal(&[]), "infinity");
    assert_eq!(infinity_literal(&[9, 0]), "InFiNiTy");
}

#[test]
fn judge_passes_a_full_infinite_parse() {
    let r = judge_float_parse("infinity", Ok(("", "infinity")), Some((true, "inf".to_string())));
    assert!(matches!(r, PropertyResult::Pass));
}

#[test]
fn judge_reports_a_finite_value() {
    let r = judge_float_parse("infinity", Ok(("", "infinity")), Some((false, "1".to_string())));
    assert_eq!(fail_message(r), "float(\"infinity\") parsed value 1 is not infinite");
}

#[test]
fn judge_reports_a_remainder() {
    let r = judge_float_parse("infinity", Ok(("inity", "inf")), Some((true, "inf".to_string())));
    assert_eq!(
        fail_message(r),
        "float(\"infinity\") left remainder \"inity\" (expected empty)"
    );
}

#[test]
fn judge_reports_a_failed_conversion() {
    let r = judge_float_parse("infinity", Ok(("", "infinity")), None);
    assert_eq!(
        fail_message(r),
        "float(\"infinity\") errored: Error(Error { input: \"\", code: Float })"
    );
}

#[test]
fn judge_reports_a_recognition_error() {
    let e = ParseErr::Error(ErrorInfo { input: "zz", code: ErrorKind::Float });
    let r = judge_float_parse("zz", Err(e), None);
    assert_eq!(
        fail_message(r),
        "float(\"zz\") errored: Error(Error { input: \"zz\", code: Float })"
    );
}
