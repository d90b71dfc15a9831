//! Literal-matching parsers.

use vstd::prelude::*;
use vstd::string::*;
use crate::error::{ErrorInfo, ErrorKind, IResult, ParseErr};
use crate::text::{has_prefix, lower_code, starts_with, starts_with_no_case};

verus! {

/// `tag(t)` applied to `input`: on success the remaining input and the
/// matched text; otherwise an `Error` of kind `Tag` at `input`.
pub fn tag<'a>(input: &'a str, t: &str) -> (r: IResult<'a, &'a str>)
    ensures
        starts_with(input@, t@) <==> r is Ok,
        r matches Ok((rest, out)) ==> {
            &&& out@ == input@.take(t@.len() as int)
            &&& rest@ == input@.skip(t@.len() as int)
        },
        r matches Err(e) ==> {
            &&& !e.is_failure()
            &&& e.info().input@ == input@
            &&& e.info().code == ErrorKind::Tag
        },
{
    if has_prefix(input, t) {
        let n = input.unicode_len();
        let m = t.unicode_len();
        let out = input.substring_char(0, m);
        let rest = input.substring_char(m, n);
        Ok((rest, out))
    } else {
        Err(ParseErr::Error(ErrorInfo { input, code: ErrorKind::Tag }))
    }
}

/// The code point of `c` with ASCII upper-case letters mapped to lower case.
pub fn lower_code_of(c: char) -> (r: u32)
    ensures
        r == lower_code(c),
{
    let u = c as u32;
    if 65 <= u && u <= 90 {
        u + 32
    } else {
        u
    }
}

/// Whether `t` is a prefix of `s` when ASCII letters are compared without case.
pub fn has_prefix_no_case(s: &str, t: &str) -> (b: bool)
    ensures
        b == starts_with_no_case(s@, t@),
{
    let n = s.unicode_len();
    let m = t.unicode_len();
    if m > n {
        return false;
    }
    let mut i: usize = 0;
    while i < m
        invariant
            m == t@.len(),
            n == s@.len(),
            m <= n,
            i <= m,
            forall|j: int| 0 <= j < i ==> #[trigger] lower_code(s@[j]) == lower_code(t@[j]),
        decreases m - i,
    {
        if lower_code_of(s.get_char(i)) != lower_code_of(t.get_char(i)) {
            return false;
        }
        i = i + 1;
    }
    true
}

/// `tag_no_case(t)` applied to `input`, for a tag of ASCII characters: a
/// character of `input` matches when it agrees with the tag's after
/// lower-casing. On success the result is the remaining input and the
/// matched text of `input`; otherwise an `Error` of kind `Tag`.
///
/// Among all characters only the Kelvin sign (U+212A) lower-cases to an
/// ASCII letter without being one (to `k`). Where it stands against `k` or
/// `K` in the tag, the characters compare equal, but the input is then split
/// at the tag's length in bytes, which falls inside the three-byte sign or
/// after the wrong character; those inputs are left out. On every other input
/// a non-ASCII character never matches, and an ASCII one matches exactly
/// when it agrees with the tag's after ASCII lower-casing.
pub fn tag_no_case<'a>(input: &'a str, t: &str) -> (r: IResult<'a, &'a str>)
    requires
        forall|i: int|
            0 <= i < t@.len() ==> (#[trigger] t@[i]) as u32 <= 127,
        forall|i: int|
            0 <= i < t@.len() && i < input@.len() && lower_code(#[trigger] t@[i]) == 107
                ==> input@[i] != '\u{212A}',
    ensures
        starts_with_no_case(input@, t@) <==> r is Ok,
        r matches Ok((rest, out)) ==> {
            &&& out@ == input@.take(t@.len() as int)
            &&& rest@ == input@.skip(t@.len() as int)
        },
        r matches Err(e) ==> {
            &&& !e.is_failure()
            &&& e.info().input@ == input@
            &&& e.info().code == ErrorKind::Tag
        },
{
    if has_prefix_no_case(input, t) {
        let n = input.unicode_len();
        let m = t.unicode_len();
        let out = input.substring_char(0, m);
        let rest = input.substring_char(m, n);
        Ok((rest, out))
    } else {
        Err(ParseErr::Error(ErrorInfo { input, code: ErrorKind::Tag }))
    }
}

} // verus!
