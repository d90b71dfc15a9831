//! Character-class parsers.

use vstd::prelude::*;
use vstd::string::*;
use crate::error::IResult;
use crate::text::{leading_run, lemma_leading_run_exact};

verus! {

/// The characters `multispace0` accepts: space, tab, line feed, carriage return.
pub open spec fn is_multispace(c: char) -> bool {
    c == ' ' || c == '\t' || c == '\n' || c == '\r'
}

/// The number of leading characters of `s` that are multispace characters.
pub open spec fn leading_spaces(s: Seq<char>) -> nat {
    leading_run(s, |c: char| is_multispace(c))
}

/// Whether `c` is a multispace character.
pub fn is_multispace_char(c: char) -> (b: bool)
    ensures
        b == is_multispace(c),
{
    c == ' ' || c == '\t' || c == '\n' || c == '\r'
}

/// `multispace0` applied to `input`: splits off the longest prefix made of
/// spaces, tabs, line feeds and carriage returns (possibly empty). It never
/// fails; the result is the remaining input and the prefix.
pub fn multispace0<'a>(input: &'a str) -> (r: IResult<'a, &'a str>)
    ensures
        r is Ok,
        r matches Ok((rest, out)) ==> {
            &&& out@ == input@.take(leading_spaces(input@) as int)
            &&& rest@ == input@.skip(leading_spaces(input@) as int)
        },
{
    let n = input.unicode_len();
    let mut k: usize = 0;
    while k < n && is_multispace_char(input.get_char(k))
        invariant
            n == input@.len(),
            k <= n,
            forall|i: int| 0 <= i < k ==> is_multispace(#[trigger] input@[i]),
        decreases n - k,
    {
        k = k + 1;
    }
    proof {
        lemma_leading_run_exact(input@, |c: char| is_multispace(c), k as nat);
    }
    let out = input.substring_char(0, k);
    let rest = input.substring_char(k, n);
    Ok((rest, out))
}

/// Law: on input made only of multispace characters, `multispace0` consumes
/// everything and leaves nothing.
pub proof fn lemma_multispace0_consumes_all_whitespace(s: Seq<char>)
    requires
        forall|i: int| 0 <= i < s.len() ==> is_multispace(#[trigger] s[i]),
    ensures
        leading_spaces(s) == s.len(),
        s.take(leading_spaces(s) as int) == s,
        s.skip(leading_spaces(s) as int).len() == 0,
{
    lemma_leading_run_exact(s, |c: char| is_multispace(c), s.len());
    assert(s.take(s.len() as int) =~= s);
}

/// Law: `multispace0` takes exactly spaces, tabs, line feeds and carriage
/// returns: a text that starts with one of them loses it and then whatever
/// the rest loses; a text that starts with any other character loses
/// nothing.
pub proof fn lemma_multispace0_first_char(c: char, rest: Seq<char>)
    ensures
        (c == ' ' || c == '\t' || c == '\n' || c == '\r') ==> leading_spaces(seq![c] + rest) == 1
            + leading_spaces(rest),
        !(c == ' ' || c == '\t' || c == '\n' || c == '\r') ==> leading_spaces(seq![c] + rest)
            == 0,
{
    let s = seq![c] + rest;
    assert(s[0] == c);
    assert(s.drop_first() =~= rest);
}

} // verus!
