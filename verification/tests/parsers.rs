//! The parsers on concrete inputs.

use nom::bytes::{tag, tag_no_case};
use nom::character::multispace0;
use nom::combinator::recognize;
use nom::error::{ErrorInfo, ErrorKind, ParseErr};
use nom::multi::{count, count_mapped_tag};
use nom::number::recognize_float_or_exceptions;

fn error_at<'a>(e: &ParseErr<'a>) -> (bool, &'a str, ErrorKind) {
    match e {
        ParseErr::Error(i) => (false, i.input, i.code),
        ParseErr::Failure(i) => (true, i.input, i.code),
    }
}

#[test]
fn tag_matches_prefix() {
    let (rest, out) = tag("abcdef", "abc").ok().unwrap();
    assert_eq!(rest, "def");
    assert_eq!(out, "abc");
}

#[test]
fn tag_reports_error_at_input() {
    let e = tag("abxdef", "abc").err().unwrap();
    assert_eq!(error_at(&e), (false, "abxdef", ErrorKind::Tag));
    let e = tag("ab", "abc").err().unwrap();
    assert_eq!(error_at(&e), (false, "ab", ErrorKind::Tag));
}

#[test]
fn tag_no_case_keeps_input_text() {
    let (rest, out) = tag_no_case("InFiNiTy!", "infinity").ok().unwrap();
    assert_eq!(out, "InFiNiTy");
    assert_eq!(rest, "!");
    let (rest, out) = tag_no_case("nan-1x", "NaN-1").ok().unwrap();
    assert_eq!((rest, out), ("x", "nan-1"));
    let e = tag_no_case("inf", "infinity").err().unwrap();
    assert_eq!(error_at(&e), (false, "inf", ErrorKind::Tag));
}

#[test]
fn multispace0_stops_at_first_non_space() {
    let (rest, out) = multispace0(" \t\r\nx y").ok().unwrap();
    assert_eq!(out, " \t\r\n");
    assert_eq!(rest, "x y");
    let (rest, out) = multispace0("xyz").ok().unwrap();
    assert_eq!(out, "");
    assert_eq!(rest, "xyz");
    let (rest, out) = multispace0("\n\n").ok().unwrap();
    assert_eq!(out, "\n\n");
    assert_eq!(rest, "");
}

#[test]
fn multispace0_handles_non_ascii_text() {
    let (rest, out) = multispace0("  é ü").ok().unwrap();
    assert_eq!(out, "  ");
    assert_eq!(rest, "é ü");
}

#[test]
fn recognize_returns_consumed_text() {
    let input = "  \tabc";
    let (rest, out) = recognize(input, multispace0(input)).ok().unwrap();
    assert_eq!(out, "  \t");
    assert_eq!(rest, "abc");
    let input = "zzz";
    let e = recognize(input, tag(input, "abc")).err().unwrap();
    assert_eq!(error_at(&e), (false, "zzz", ErrorKind::Tag));
}

#[test]
fn count_collects_n_outputs() {
    let (rest, out) = count_mapped_tag("abcabcabcdef", "abc", (), 3).ok().unwrap();
    assert_eq!(rest, "def");
    assert_eq!(out.len(), 3);
    let (rest, out) = count_mapped_tag("xyxyxy", "xy", 7u32, 2).ok().unwrap();
    assert_eq!(rest, "xy");
    assert_eq!(out, vec![7u32, 7u32]);
    let (rest, out) = count_mapped_tag("abc", "abc", (), 0).ok().unwrap();
    assert_eq!(rest, "abc");
    assert!(out.is_empty());
}

#[test]
fn count_reports_first_failing_run() {
    let e = count_mapped_tag("abcabdef", "abc", (), 3).err().unwrap();
    assert_eq!(error_at(&e), (false, "abdef", ErrorKind::Tag));
}

#[test]
fn float_literals_are_recognized() {
    let cases: &[(&str, &str, &str)] = &[
        ("1.5e3abc", "abc", "1.5e3"),
        ("+1.", "", "+1."),
        ("-.25x", "x", "-.25"),
        ("12E-4", "", "12E-4"),
        ("7e+1;", ";", "7e+1"),
        ("3.14.15", ".15", "3.14"),
        ("nan", "", "nan"),
        ("NaNx", "x", "NaN"),
        ("infinity", "", "infinity"),
        ("INFINITYx", "x", "INFINITY"),
        ("inf", "", "inf"),
        ("Infini", "ini", "Inf"),
    ];
    for (input, rest, out) in cases {
        let (r, o) = recognize_float_or_exceptions(input).ok().unwrap();
        assert_eq!((r, o), (*rest, *out), "input {input:?}");
    }
}

#[test]
fn float_errors_and_failures() {
    let e = recognize_float_or_exceptions("1e").err().unwrap();
    assert_eq!(error_at(&e), (true, "1e", ErrorKind::Float));
    let e = recognize_float_or_exceptions("2.5E+x").err().unwrap();
    assert_eq!(error_at(&e), (true, "2.5E+x", ErrorKind::Float));
    let e = recognize_float_or_exceptions("-inf").err().unwrap();
    assert_eq!(error_at(&e), (false, "-inf", ErrorKind::Float));
    let e = recognize_float_or_exceptions(".").err().unwrap();
    assert_eq!(error_at(&e), (false, ".", ErrorKind::Float));
    let e = recognize_float_or_exceptions("").err().unwrap();
    assert_eq!(error_at(&e), (false, "", ErrorKind::Float));
}

#[test]
fn errors_describe_themselves() {
    let e = ParseErr::Error(ErrorInfo { input: "xyz", code: ErrorKind::Tag });
    assert_eq!(e.describe(), "Error(Error { input: \"xyz\", code: Tag })");
    let e = ParseErr::Failure(ErrorInfo { input: "a\"b", code: ErrorKind::Float });
    assert_eq!(e.describe(), "Failure(Error { input: \"a\\\"b\", code: Float })");
}

#[test]
fn count_runs_any_parser() {
    let (rest, out) = count(|s| tag(s, "ab"), 2, "ababx").ok().unwrap();
    assert_eq!(rest, "x");
    assert_eq!(out, vec!["ab", "ab"]);
    let (rest, out) = count(|s| multispace0(s), 3, "  x").ok().unwrap();
    assert_eq!(rest, "x");
    assert_eq!(out, vec!["  ", "", ""]);
    let e = count(|s| tag(s, "ab"), 3, "ababx").err().unwrap();
    assert_eq!(error_at(&e), (false, "x", ErrorKind::Tag));
    let e = count(|s| recognize_float_or_exceptions(s), 2, "1.5 1e").err().unwrap();
    assert_eq!(error_at(&e), (false, " 1e", ErrorKind::Float));
    let (rest, out) = count(|s| tag(s, ""), 0, "abc").ok().unwrap();
    assert_eq!((rest, out.len()), ("abc", 0));
}

#[test]
fn tag_no_case_matches_k_against_ascii_only() {
    let (rest, out) = tag_no_case("KEY!", "key").ok().unwrap();
    assert_eq!((rest, out), ("!", "KEY"));
}
