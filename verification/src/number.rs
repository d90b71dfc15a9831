//! Recognition of floating-point literals.

use vstd::prelude::*;
use vstd::string::*;
use crate::bytes::tag_no_case;
use crate::error::{ErrorInfo, ErrorKind, IResult, ParseErr};
use crate::text::{
    leading_run, lemma_leading_run_exact, lemma_leading_run_stops, lower_code, starts_with_no_case,
};

verus! {

/// An ASCII decimal digit.
pub open spec fn is_digit(c: char) -> bool {
    48 <= c as u32 && c as u32 <= 57
}

/// `+` or `-`.
pub open spec fn is_sign(c: char) -> bool {
    c == '+' || c == '-'
}

/// The number of leading ASCII digits of `s`.
pub open spec fn leading_digits(s: Seq<char>) -> nat {
    leading_run(s, |c: char| is_digit(c))
}

/// The length of an optional leading sign of `s`: 1 or 0.
pub open spec fn sign_len(s: Seq<char>) -> nat {
    if s.len() > 0 && is_sign(s[0]) {
        1
    } else {
        0
    }
}

/// How a recognizer fares on some input: it matches a prefix of the given
/// length, it does not match (an error an alternative may recover from), or
/// it gave up after a point of no return (a failure).
pub enum Scan {
    Matched(nat),
    NoMatch,
    Cut,
}

/// Where the mantissa that starts at `p` ends: digits with an optional `.`
/// and optional further digits, or `.` followed by at least one digit.
pub open spec fn mantissa_end(s: Seq<char>, p: nat) -> Option<nat> {
    let d = leading_digits(s.skip(p as int));
    if d > 0 {
        let q = p + d;
        if q < s.len() && s[q as int] == '.' {
            Some(q + 1 + leading_digits(s.skip((q + 1) as int)))
        } else {
            Some(q)
        }
    } else if p < s.len() && s[p as int] == '.' && leading_digits(s.skip((p + 1) as int)) > 0 {
        Some(p + 1 + leading_digits(s.skip((p + 1) as int)))
    } else {
        None
    }
}

/// `recognize_float` on `s`: an optional sign, a mantissa, and an optional
/// exponent `e`/`E` with an optional sign; once the exponent letter is
/// seen, its digits are required (a failure when absent).
pub open spec fn scan_float(s: Seq<char>) -> Scan {
    let p = sign_len(s);
    match mantissa_end(s, p) {
        None => Scan::NoMatch,
        Some(q) => if q < s.len() && (s[q as int] == 'e' || s[q as int] == 'E') {
            let r = q + 1 + sign_len(s.skip((q + 1) as int));
            let e = leading_digits(s.skip(r as int));
            if e > 0 {
                Scan::Matched(r + e)
            } else {
                Scan::Cut
            }
        } else {
            Scan::Matched(q)
        },
    }
}

pub open spec fn nan_tag() -> Seq<char> {
    seq!['n', 'a', 'n']
}

pub open spec fn infinity_tag() -> Seq<char> {
    seq!['i', 'n', 'f', 'i', 'n', 'i', 't', 'y']
}

pub open spec fn inf_tag() -> Seq<char> {
    seq!['i', 'n', 'f']
}

/// `recognize_float_or_exceptions` on `s`: a float literal, or else, without
/// regard to ASCII case, `nan`, `infinity` or `inf`, tried in that order.
pub open spec fn scan_float_or_exception(s: Seq<char>) -> Scan {
    match scan_float(s) {
        Scan::NoMatch => if starts_with_no_case(s, nan_tag()) {
            Scan::Matched(3)
        } else if starts_with_no_case(s, infinity_tag()) {
            Scan::Matched(8)
        } else if starts_with_no_case(s, inf_tag()) {
            Scan::Matched(3)
        } else {
            Scan::NoMatch
        },
        other => other,
    }
}

fn is_digit_char(c: char) -> (b: bool)
    ensures
        b == is_digit(c),
{
    let u = c as u32;
    48 <= u && u <= 57
}

fn is_sign_char(c: char) -> (b: bool)
    ensures
        b == is_sign(c),
{
    c == '+' || c == '-'
}

/// The end of the run of ASCII digits of `s` that starts at `start`.
fn digits_end(s: &str, n: usize, start: usize) -> (end: usize)
    requires
        n == s@.len(),
        start <= n,
    ensures
        start <= end <= n,
        end - start == leading_digits(s@.skip(start as int)),
{
    let mut k: usize = start;
    while k < n && is_digit_char(s.get_char(k))
        invariant
            n == s@.len(),
            start <= k <= n,
            forall|i: int| start <= i < k ==> is_digit(#[trigger] s@[i]),
        decreases n - k,
    {
        k = k + 1;
    }
    proof {
        let t = s@.skip(start as int);
        assert forall|i: int| 0 <= i < k - start implies is_digit(#[trigger] t[i]) by {
            assert(t[i] == s@[start + i]);
        }
        lemma_leading_run_exact(t, |c: char| is_digit(c), (k - start) as nat);
    }
    k
}

/// The outcome of scanning for a float literal, in executable form.
enum Scanned {
    Length(usize),
    Rejected,
    Aborted,
}

impl Scanned {
    spec fn agrees_with(self, s: Scan) -> bool {
        match s {
            Scan::Matched(k) => self matches Scanned::Length(m) && m == k,
            Scan::NoMatch => self is Rejected,
            Scan::Cut => self is Aborted,
        }
    }
}

/// Runs the float-literal grammar (`recognize_float`) on `input`.
fn scan_float_literal(input: &str) -> (r: Scanned)
    ensures
        r.agrees_with(scan_float(input@)),
        r matches Scanned::Length(k) ==> k <= input@.len(),
{
    let n = input.unicode_len();
    let p: usize = if n > 0 && is_sign_char(input.get_char(0)) {
        1
    } else {
        0
    };
    assert(p == sign_len(input@));
    let d = digits_end(input, n, p);
    let q: usize;
    if d > p {
        if d < n && input.get_char(d) == '.' {
            q = digits_end(input, n, d + 1);
        } else {
            q = d;
        }
    } else if p < n && input.get_char(p) == '.' {
        let e = digits_end(input, n, p + 1);
        if e > p + 1 {
            q = e;
        } else {
            return Scanned::Rejected;
        }
    } else {
        return Scanned::Rejected;
    }
    assert(mantissa_end(input@, p as nat) == Some(q as nat));
    if q < n && (input.get_char(q) == 'e' || input.get_char(q) == 'E') {
        let r: usize = if q + 1 < n && is_sign_char(input.get_char(q + 1)) {
            q + 2
        } else {
            q + 1
        };
        assert(r == q + 1 + sign_len(input@.skip(q + 1)));
        let e = digits_end(input, n, r);
        if e > r {
            Scanned::Length(e)
        } else {
            Scanned::Aborted
        }
    } else {
        Scanned::Length(q)
    }
}

/// `recognize_float_or_exceptions` applied to `input`: on a match of length
/// `k`, the remaining input and the matched text; otherwise an error of kind
/// `Float` at `input`, a `Failure` when an exponent lacks its digits and an
/// `Error` when nothing matches.
pub fn recognize_float_or_exceptions<'a>(input: &'a str) -> (r: IResult<'a, &'a str>)
    ensures
        match scan_float_or_exception(input@) {
            Scan::Matched(k) => r matches Ok((rest, out)) && {
                &&& out@ == input@.take(k as int)
                &&& rest@ == input@.skip(k as int)
            },
            Scan::NoMatch => r matches Err(e) && {
                &&& !e.is_failure()
                &&& e.info().input@ == input@
                &&& e.info().code == ErrorKind::Float
            },
            Scan::Cut => r matches Err(e) && {
                &&& e.is_failure()
                &&& e.info().input@ == input@
                &&& e.info().code == ErrorKind::Float
            },
        },
{
    match scan_float_literal(input) {
        Scanned::Length(k) => {
            let n = input.unicode_len();
            let out = input.substring_char(0, k);
            let rest = input.substring_char(k, n);
            Ok((rest, out))
        },
        Scanned::Aborted => Err(ParseErr::Failure(ErrorInfo { input, code: ErrorKind::Float })),
        Scanned::Rejected => {
            proof {
                reveal_strlit("nan");
                reveal_strlit("infinity");
                reveal_strlit("inf");
            }
            assert("nan"@ =~= nan_tag());
            assert("infinity"@ =~= infinity_tag());
            assert("inf"@ =~= inf_tag());
            if let Ok(found) = tag_no_case(input, "nan") {
                return Ok(found);
            }
            if let Ok(found) = tag_no_case(input, "infinity") {
                return Ok(found);
            }
            if let Ok(found) = tag_no_case(input, "inf") {
                return Ok(found);
            }
            Err(ParseErr::Error(ErrorInfo { input, code: ErrorKind::Float }))
        },
    }
}

/// Law: on any input that begins, without regard to ASCII case, with
/// `infinity`, the longer literal wins: `recognize_float_or_exceptions`
/// matches all eight characters, not just `inf`.
pub proof fn lemma_infinity_matched_fully(s: Seq<char>)
    requires
        starts_with_no_case(s, infinity_tag()),
    ensures
        scan_float_or_exception(s) == Scan::Matched(8),
{
    assert(lower_code(s[0]) == lower_code(infinity_tag()[0]));
    assert(s.skip(0)[0] == s[0]);
    assert(leading_digits(s.skip(0)) == 0);
    assert(!starts_with_no_case(s, nan_tag()));
}

proof fn lemma_digits_stop(s: Seq<char>, p: int)
    requires
        0 <= p <= s.len(),
    ensures
        p + leading_digits(s.skip(p)) <= s.len(),
        p + leading_digits(s.skip(p)) < s.len() ==> !(48 <= s[p + leading_digits(s.skip(p))] as u32
            && s[p + leading_digits(s.skip(p))] as u32 <= 57),
{
    let t = s.skip(p);
    lemma_leading_run_stops(t, |c: char| is_digit(c));
    let d = leading_digits(t);
    if p + d < s.len() {
        assert(t[d as int] == s[p + d]);
    }
}

/// Law: a float literal is read as far as it goes. When the grammar
/// matches `k` characters, `k` is within the input and the character right
/// after the match, if any, is not an ASCII digit: every digit of the
/// integer part, of the fraction and of the exponent is taken.
pub proof fn lemma_float_literal_maximal(s: Seq<char>)
    ensures
        scan_float(s) matches Scan::Matched(k) ==> k <= s.len() && (k == s.len() || !(48
            <= s[k as int] as u32 && s[k as int] as u32 <= 57)),
{
    let p = sign_len(s) as int;
    lemma_digits_stop(s, p);
    let d = leading_digits(s.skip(p));
    if d > 0 {
        let q = p + d;
        if q < s.len() && s[q] == '.' {
            lemma_digits_stop(s, q + 1);
        }
    } else if p < s.len() && s[p] == '.' {
        lemma_digits_stop(s, p + 1);
    }
    if let Some(q) = mantissa_end(s, p as nat) {
        if q < s.len() && (s[q as int] == 'e' || s[q as int] == 'E') {
            let r = q + 1 + sign_len(s.skip((q + 1) as int));
            lemma_digits_stop(s, r as int);
        }
    }
}

} // verus!
