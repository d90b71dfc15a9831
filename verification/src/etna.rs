//! Regression properties for `multispace0`, `float` and `count`.
//!
//! Each `property_*` function takes plain inputs, runs the parsers on text
//! derived from them and reports whether the expected behaviour was seen.

use vstd::prelude::*;
use vstd::string::*;
use crate::character::{is_multispace, lemma_multispace0_consumes_all_whitespace, multispace0};
use crate::combinator::recognize;
use crate::error::{describe_spec, ErrorInfo, ErrorKind, IResult, ParseErr};
use crate::fmt::{debug_str, debug_text, decimal_string};
use crate::multi::{count_mapped_tag, lemma_count_repeated_tag, repeat_seq};
use crate::number::{
    infinity_tag, lemma_infinity_matched_fully, recognize_float_or_exceptions,
    scan_float_or_exception, Scan,
};
use crate::text::{same_text, starts_with_no_case};

verus! {

/// The verdict of a property on one input.
pub enum PropertyResult {
    Pass,
    Fail(String),
    Discard,
}

/// The whitespace character that a payload byte stands for.
pub open spec fn ws_for_byte(b: u8) -> char {
    if b % 4 == 0 {
        ' '
    } else if b % 4 == 1 {
        '\t'
    } else if b % 4 == 2 {
        '\n'
    } else {
        '\r'
    }
}

/// The whitespace text built from a payload: one character for each of its
/// first 16 bytes, or a single space when the payload is empty.
pub open spec fn sanitized(payload: Seq<u8>) -> Seq<char> {
    let k = if payload.len() < 16 {
        payload.len()
    } else {
        16
    };
    if k == 0 {
        seq![' ']
    } else {
        Seq::new(k, |i: int| ws_for_byte(payload[i]))
    }
}

fn ws_text(b: u8) -> (r: &'static str)
    ensures
        r@ == seq![ws_for_byte(b)],
{
    proof {
        reveal_strlit(" ");
        reveal_strlit("\t");
        reveal_strlit("\n");
        reveal_strlit("\r");
    }
    let m = b % 4;
    if m == 0 {
        " "
    } else if m == 1 {
        "\t"
    } else if m == 2 {
        "\n"
    } else {
        "\r"
    }
}

/// Maps the first 16 bytes of `payload` to space, tab, line feed or carriage
/// return by their value modulo 4; an empty payload gives a single space.
pub fn sanitize_ws(payload: &[u8]) -> (r: String)
    ensures
        r@ == sanitized(payload@),
{
    let k: usize = if payload.len() < 16 {
        payload.len()
    } else {
        16
    };
    let mut out = String::new();
    let mut i: usize = 0;
    while i < k
        invariant
            k <= payload@.len(),
            k <= 16,
            i <= k,
            out@ =~= Seq::new(i as nat, |j: int| ws_for_byte(payload@[j])),
        decreases k - i,
    {
        out.append(ws_text(payload[i]));
        i = i + 1;
    }
    if out.as_str().is_empty() {
        proof {
            reveal_strlit(" ");
        }
        out.append(" ");
    }
    out
}

/// Property: `recognize(multispace0)` on a text made only of whitespace
/// consumes all of it and leaves nothing.
pub fn property_multispace0_consumes_all_whitespace(payload: Vec<u8>) -> (r: PropertyResult)
    ensures
        r is Pass,
{
    let input = sanitize_ws(payload.as_slice());
    let s = input.as_str();
    if s.is_empty() {
        return PropertyResult::Discard;
    }
    let inner = multispace0(s);
    proof {
        assert forall|i: int| 0 <= i < s@.len() implies is_multispace(#[trigger] s@[i]) by {}
        lemma_multispace0_consumes_all_whitespace(s@);
        assert(s@.skip(0) =~= s@);
    }
    let parsed = recognize(s, inner);
    match parsed {
        Ok((rem, out)) => {
            if rem.is_empty() && same_text(out, s) {
                PropertyResult::Pass
            } else {
                let mut m = String::from_str("recognize(multispace0) on ");
                m.append(debug_text(s).as_str());
                m.append(": got rem=");
                m.append(debug_text(rem).as_str());
                m.append(" out=");
                m.append(debug_text(out).as_str());
                m.append(", expected rem=\"\" out=whole");
                PropertyResult::Fail(m)
            }
        },
        Err(e) => {
            let mut m = String::from_str("recognize(multispace0) errored on ");
            m.append(debug_text(s).as_str());
            m.append(": ");
            m.append(e.describe().as_str());
            PropertyResult::Fail(m)
        },
    }
}

/// The casing of `infinity` that a seed selects.
pub open spec fn infinity_casing(seed: u8) -> Seq<char> {
    if seed % 6 == 0 {
        seq!['i', 'n', 'f', 'i', 'n', 'i', 't', 'y']
    } else if seed % 6 == 1 {
        seq!['I', 'n', 'f', 'i', 'n', 'i', 't', 'y']
    } else if seed % 6 == 2 {
        seq!['I', 'N', 'F', 'I', 'N', 'I', 'T', 'Y']
    } else if seed % 6 == 3 {
        seq!['I', 'n', 'F', 'i', 'N', 'i', 'T', 'y']
    } else if seed % 6 == 4 {
        seq!['i', 'N', 'F', 'I', 'N', 'I', 'T', 'Y']
    } else {
        seq!['i', 'n', 'f', 'i', 'N', 'I', 'T', 'Y']
    }
}

/// One of six casings of `infinity`, chosen by `seed % 6`.
pub fn pick_infinity_casing(seed: u8) -> (r: &'static str)
    ensures
        r@ == infinity_casing(seed),
{
    proof {
        reveal_strlit("infinity");
        reveal_strlit("Infinity");
        reveal_strlit("INFINITY");
        reveal_strlit("InFiNiTy");
        reveal_strlit("iNFINITY");
        reveal_strlit("infiNITY");
    }
    let m = seed % 6;
    if m == 0 {
        "infinity"
    } else if m == 1 {
        "Infinity"
    } else if m == 2 {
        "INFINITY"
    } else if m == 3 {
        "InFiNiTy"
    } else if m == 4 {
        "iNFINITY"
    } else {
        "infiNITY"
    }
}

/// The seed a payload carries: its first byte, or 0 when it is empty.
pub open spec fn payload_seed(payload: Seq<u8>) -> u8 {
    if payload.len() > 0 {
        payload[0]
    } else {
        0
    }
}

/// The literal that the float property parses for `payload`.
pub fn infinity_literal(payload: &[u8]) -> (r: &'static str)
    ensures
        r@ == infinity_casing(payload_seed(payload@)),
{
    let seed = if payload.len() > 0 {
        payload[0]
    } else {
        0
    };
    pick_infinity_casing(seed)
}

/// Law: every casing the float property can pick is recognized as a whole
/// by `recognize_float_or_exceptions`, with nothing left over.
pub proof fn lemma_infinity_casing_recognized_fully(seed: u8)
    ensures
        infinity_casing(seed).len() == 8,
        scan_float_or_exception(infinity_casing(seed)) == Scan::Matched(8),
        infinity_casing(seed).take(8) == infinity_casing(seed),
        infinity_casing(seed).skip(8).len() == 0,
{
    let s = infinity_casing(seed);
    assert(starts_with_no_case(s, infinity_tag()));
    lemma_infinity_matched_fully(s);
    assert(s.take(8) =~= s);
}

/// The message for a float parse that returned an error.
pub open spec fn float_errored_msg(literal: Seq<char>, error: Seq<char>) -> Seq<char> {
    "float("@ + debug_str(literal) + ") errored: "@ + error
}

/// The message for a float parse whose value is finite.
pub open spec fn float_not_infinite_msg(literal: Seq<char>, shown: Seq<char>) -> Seq<char> {
    "float("@ + debug_str(literal) + ") parsed value "@ + shown + " is not infinite"@
}

/// The message for a float parse that left input over.
pub open spec fn float_remainder_msg(literal: Seq<char>, rem: Seq<char>) -> Seq<char> {
    "float("@ + debug_str(literal) + ") left remainder "@ + debug_str(rem) + " (expected empty)"@
}

/// The verdict of the float property on `literal`, given `recognized`, the
/// result of `recognize_float_or_exceptions` on it, and `value`, the result
/// of converting the recognized text to `f32`: `None` when the conversion
/// fails, else whether the value is infinite and its `Display` text.
/// As in `float`, a failed conversion is an `Error` of kind `Float` at the
/// remaining input. The verdict is `Pass` exactly when the text was
/// recognized, converts to an infinite value, and nothing is left over.
pub fn judge_float_parse<'a>(
    literal: &str,
    recognized: IResult<'a, &'a str>,
    value: Option<(bool, String)>,
) -> (r: PropertyResult)
    ensures
        recognized matches Err(e) ==> (r matches PropertyResult::Fail(m) && m@ == float_errored_msg(
            literal@,
            describe_spec(e.is_failure(), e.info().input@, e.info().code),
        )),
        recognized matches Ok((rem, _)) ==> match value {
            None => r matches PropertyResult::Fail(m) && m@ == float_errored_msg(
                literal@,
                describe_spec(false, rem@, ErrorKind::Float),
            ),
            Some((infinite, shown)) => if !infinite {
                r matches PropertyResult::Fail(m) && m@ == float_not_infinite_msg(literal@, shown@)
            } else if rem@.len() != 0 {
                r matches PropertyResult::Fail(m) && m@ == float_remainder_msg(literal@, rem@)
            } else {
                r is Pass
            },
        },
{
    let parsed: IResult<'a, bool> = match recognized {
        Ok((rem, _)) => match value {
            Some((infinite, shown)) => {
                if !infinite {
                    let mut m = String::from_str("float(");
                    m.append(debug_text(literal).as_str());
                    m.append(") parsed value ");
                    m.append(shown.as_str());
                    m.append(" is not infinite");
                    return PropertyResult::Fail(m);
                }
                Ok((rem, infinite))
            },
            None => Err(ParseErr::Error(ErrorInfo { input: rem, code: ErrorKind::Float })),
        },
        Err(e) => Err(e),
    };
    match parsed {
        Ok((rem, _)) => {
            if !rem.is_empty() {
                let mut m = String::from_str("float(");
                m.append(debug_text(literal).as_str());
                m.append(") left remainder ");
                m.append(debug_text(rem).as_str());
                m.append(" (expected empty)");
                return PropertyResult::Fail(m);
            }
            PropertyResult::Pass
        },
        Err(e) => {
            let mut m = String::from_str("float(");
            m.append(debug_text(literal).as_str());
            m.append(") errored: ");
            m.append(e.describe().as_str());
            PropertyResult::Fail(m)
        },
    }
}

/// The verdict of the float property on `literal`, recognized whole, when
/// the conversion to `f32` reports `v`: `Pass` for an infinite value, else
/// the failure that says the value is finite or that the conversion failed.
pub open spec fn float_verdict(literal: Seq<char>, v: Option<(bool, String)>, r: PropertyResult) -> bool {
    match v {
        None => r matches PropertyResult::Fail(m) && m@ == float_errored_msg(
            literal,
            describe_spec(false, Seq::empty(), ErrorKind::Float),
        ),
        Some((infinite, shown)) => if infinite {
            r is Pass
        } else {
            r matches PropertyResult::Fail(m) && m@ == float_not_infinite_msg(literal, shown@)
        },
    }
}

/// Property: `float` on the casing of `infinity` that `payload` selects
/// (by its first byte, or 0 when it is empty) returns an infinite value and
/// leaves nothing over. `convert` converts recognized float text to `f32`:
/// `None` when the conversion fails, else whether the value is infinite and
/// its `Display` text. The literal is always recognized whole, so the
/// verdict rests on what `convert` reports for it.
pub fn property_float_parses_infinity_fully<F: Fn(&str) -> Option<(bool, String)>>(
    payload: Vec<u8>,
    convert: F,
) -> (r: PropertyResult)
    requires
        forall|t: &str| convert.requires((t,)),
    ensures
        exists|t: &str, v: Option<(bool, String)>|
            {
                &&& t@ == infinity_casing(payload_seed(payload@))
                &&& #[trigger] convert.ensures((t,), v)
                &&& float_verdict(t@, v, r)
            },
{
    let literal = infinity_literal(payload.as_slice());
    proof {
        lemma_infinity_casing_recognized_fully(payload_seed(payload@));
    }
    let recognized = recognize_float_or_exceptions(literal);
    let (text, value): (&str, Option<(bool, String)>) = match &recognized {
        Ok((_, text)) => (*text, convert(*text)),
        Err(_) => (literal, None),
    };
    proof {
        assert(text@ == literal@);
        assert(convert.ensures((text,), value));
    }
    let ghost v = value;
    let ghost rec = recognized;
    let r = judge_float_parse(literal, recognized, value);
    proof {
        if let Ok((rem, _)) = rec {
            assert(rem@ =~= Seq::<char>::empty());
        }
        assert(convert.ensures((text,), v));
    }
    r
}

/// Property: `count(map(tag("abc"), |_| ()), n)`, whose output type has
/// size zero, parses `n` copies of `abc` from `abc` repeated `n` times then
/// `def`, leaving `def`, for `n = repeats % 4 + 1`.
pub fn property_count_handles_zero_sized_output(repeats: u8) -> (r: PropertyResult)
    ensures
        r is Pass,
{
    let n: usize = (repeats as usize) % 4 + 1;
    proof {
        reveal_strlit("abc");
        reveal_strlit("def");
    }
    let mut input = String::new();
    let mut i: usize = 0;
    while i < n
        invariant
            i <= n,
            n <= 4,
            input@ == repeat_seq("abc"@, i as nat),
        decreases n - i,
    {
        input.append("abc");
        i = i + 1;
    }
    input.append("def");
    proof {
        lemma_count_repeated_tag("abc"@, "def"@, n as nat);
    }
    let counted = count_mapped_tag(input.as_str(), "abc", (), n);
    match counted {
        Ok((rem, out)) => {
            if !same_text(rem, "def") {
                let mut m = String::from_str("count returned rem=");
                m.append(debug_text(rem).as_str());
                m.append(", expected \"def\"");
                return PropertyResult::Fail(m);
            }
            if out.len() != n {
                let mut m = String::from_str("count returned ");
                m.append(decimal_string(out.len() as u128).as_str());
                m.append(" elements, expected ");
                m.append(decimal_string(n as u128).as_str());
                return PropertyResult::Fail(m);
            }
            PropertyResult::Pass
        },
        Err(e) => {
            let mut m = String::from_str("count errored: ");
            m.append(e.describe().as_str());
            PropertyResult::Fail(m)
        },
    }
}

} // verus!
