//! The harness helpers on concrete inputs.

use nom::etna::PropertyResult;
use nom::fmt::decimal_string;
use nom::report::{json_line, json_str};
use nom::runner::{
    etna_witness_outcome, hegel_outcome, run_all_step, UNKNOWN_PROPERTY_MARKER, search_outcome, seed_to_bytes, to_err, usize_to_u8, usize_vec_to_u8_vec,
    verdict_option, Metrics, SearchStatus,
};

#[test]
fn verdicts_map_to_outcomes() {
    assert_eq!(to_err(PropertyResult::Pass), Ok(()));
    assert_eq!(to_err(PropertyResult::Discard), Ok(()));
    assert_eq!(to_err(PropertyResult::Fail("bad".to_string())), Err("bad".to_string()));
    assert_eq!(verdict_option(&PropertyResult::Pass), Some(true));
    assert_eq!(verdict_option(&PropertyResult::Fail(String::new())), Some(false));
    assert_eq!(verdict_option(&PropertyResult::Discard), None);
}

#[test]
fn metrics_add_up() {
    let a = Metrics { inputs: 3, elapsed_us: 10 };
    let b = Metrics { inputs: 4, elapsed_us: 5 };
    let c = a.combine(b);
    assert_eq!((c.inputs, c.elapsed_us), (7, 15));
}

#[test]
fn run_all_step_stops_on_error() {
    let total = Metrics { inputs: 1, elapsed_us: 2 };
    match run_all_step(total, (Ok(()), Metrics { inputs: 5, elapsed_us: 6 })) {
        Ok(t) => assert_eq!((t.inputs, t.elapsed_us), (6, 8)),
        Err(_) => panic!("an Ok outcome must not stop the run"),
    }
    match run_all_step(total, (Err("boom".to_string()), Metrics { inputs: 2, elapsed_us: 0 })) {
        Err((m, t)) => {
            assert_eq!(m, "boom");
            assert_eq!((t.inputs, t.elapsed_us), (3, 2));
        }
        Ok(_) => panic!("an error must stop the run"),
    }
}

#[test]
fn seeds_expand_deterministically() {
    assert_eq!(seed_to_bytes(0), vec![191]);
    assert_eq!(seed_to_bytes(12345), vec![248]);
    assert_eq!(seed_to_bytes(0xF000_0000_0000_0001), vec![214, 89, 204, 230, 90, 243, 154]);
}

#[test]
fn small_numbers_spread_over_bytes() {
    assert_eq!(usize_to_u8(0), 0);
    assert_eq!(usize_to_u8(1), 158);
    assert_eq!(usize_to_u8(1000), 8);
    assert_eq!(usize_vec_to_u8_vec(vec![0, 1, 2, 3]), vec![0, 158, 60, 218]);
    assert_eq!(usize_vec_to_u8_vec(vec![]), Vec::<u8>::new());
}

#[test]
fn decimal_text_of_numbers() {
    assert_eq!(decimal_string(0), "0");
    assert_eq!(decimal_string(907), "907");
    assert_eq!(decimal_string(u128::MAX), u128::MAX.to_string());
}

#[test]
fn search_outcomes_name_the_tool() {
    assert_eq!(search_outcome("quickcheck", SearchStatus::Finished), Ok(()));
    assert_eq!(
        search_outcome(
            "crabcheck",
            SearchStatus::Failed(vec!["[1, 2]".to_string(), "7".to_string()])
        ),
        Err("crabcheck counterexample: ([1, 2] 7)".to_string())
    );
    assert_eq!(
        search_outcome("quickcheck", SearchStatus::Aborted("oops".to_string())),
        Err("quickcheck aborted: oops".to_string())
    );
    assert_eq!(
        search_outcome("quickcheck", SearchStatus::TimedOut),
        Err("quickcheck timed out".to_string())
    );
    assert_eq!(
        search_outcome("crabcheck", SearchStatus::GaveUp { passed: 12, discarded: 300 }),
        Err("crabcheck gave up: passed=12, discarded=300".to_string())
    );
}

#[test]
fn json_strings_are_escaped() {
    assert_eq!(json_str("plain"), "\"plain\"");
    assert_eq!(json_str("a\"b\\c\nd\re\tf\u{1}g\u{1f}"), "\"a\\\"b\\\\c\\nd\\re\\tf\\u0001g\\u001f\"");
    assert_eq!(json_str("é"), "\"é\"");
}

#[test]
fn json_report_line() {
    let m = Metrics { inputs: 3, elapsed_us: 12 };
    assert_eq!(
        json_line("etna", "All", "passed", m, None, None),
        "{\"status\":\"passed\",\"tests\":3,\"discards\":0,\"time\":\"12us\",\"counterexample\":null,\"error\":null,\"tool\":\"etna\",\"property\":\"All\"}"
    );
    assert_eq!(
        json_line("hegel", "X", "failed", m, Some("line\n"), Some("e")),
        "{\"status\":\"failed\",\"tests\":3,\"discards\":0,\"time\":\"12us\",\"counterexample\":\"line\\n\",\"error\":\"e\",\"tool\":\"hegel\",\"property\":\"X\"}"
    );
}

#[test]
fn hegel_outcomes() {
    let m = Metrics { inputs: 9, elapsed_us: 40 };
    let (r, t) = hegel_outcome(None, m);
    assert_eq!(r, Ok(()));
    assert_eq!((t.inputs, t.elapsed_us), (9, 40));
    let (r, t) = hegel_outcome(Some("boom at 3".to_string()), m);
    assert_eq!(r, Err("hegel found counterexample: boom at 3".to_string()));
    assert_eq!((t.inputs, t.elapsed_us), (9, 40));
    let (r, t) = hegel_outcome(Some(format!("{UNKNOWN_PROPERTY_MARKER}Nope")), m);
    assert_eq!(r, Err("Unknown property for hegel: Nope".to_string()));
    assert_eq!((t.inputs, t.elapsed_us), (0, 0));
}

// A minimal decoder of the escapes `json_str` writes.
fn decode(lit: &str) -> String {
    let inner = &lit[1..lit.len() - 1];
    let mut out = String::new();
    let mut chars = inner.chars();
    while let Some(c) = chars.next() {
        if c != '\\' {
            out.push(c);
            continue;
        }
        match chars.next().unwrap() {
            'n' => out.push('\n'),
            'r' => out.push('\r'),
            't' => out.push('\t'),
            'u' => {
                let hex: String = (0..4).map(|_| chars.next().unwrap()).collect();
                out.push(char::from_u32(u32::from_str_radix(&hex, 16).unwrap()).unwrap());
            }
            other => out.push(other),
        }
    }
    out
}

#[test]
fn json_str_output_decodes_back() {
    for s in ["", "plain", "q\"q", "b\\s", "\u{0}\u{1f}\u{7f}é\n\r\t"] {
        let lit = json_str(s);
        assert!(lit.starts_with('"') && lit.ends_with('"'));
        assert!(lit.chars().all(|c| c as u32 >= 0x20));
        assert_eq!(decode(&lit), s);
    }
}

fn f32_outcome(text: &str) -> Option<(bool, String)> {
    text.parse::<f32>().ok().map(|v| (v.is_infinite(), v.to_string()))
}

#[test]
fn etna_witnesses_by_name() {
    assert_eq!(etna_witness_outcome("Multispace0ConsumesAllWhitespace", f32_outcome), Ok(Ok(())));
    assert_eq!(etna_witness_outcome("FloatParsesInfinityFully", f32_outcome), Ok(Ok(())));
    assert_eq!(etna_witness_outcome("CountHandlesZeroSizedOutput", f32_outcome), Ok(Ok(())));
    assert_eq!(
        etna_witness_outcome("FloatParsesInfinityFully", |_: &str| Some((false, "2".to_string()))),
        Ok(Err("float(\"infinity\") parsed value 2 is not infinite".to_string()))
    );
    assert_eq!(
        etna_witness_outcome("Nope", f32_outcome),
        Err("Unknown property: Nope".to_string())
    );
}
