//! Character-level helpers shared by the parsers.

use vstd::prelude::*;
use vstd::string::*;

verus! {

/// `t` is a prefix of `s`.
pub open spec fn starts_with(s: Seq<char>, t: Seq<char>) -> bool {
    t.len() <= s.len() && s.take(t.len() as int) =~= t
}

/// The code point of `c`, with ASCII upper-case letters mapped to lower case.
pub open spec fn lower_code(c: char) -> u32 {
    let u = c as u32;
    if 65 <= u && u <= 90 {
        (u + 32) as u32
    } else {
        u
    }
}

/// `t` is a prefix of `s` when ASCII letters are compared without case.
pub open spec fn starts_with_no_case(s: Seq<char>, t: Seq<char>) -> bool {
    &&& t.len() <= s.len()
    &&& forall|i: int| 0 <= i < t.len() ==> #[trigger] lower_code(s[i]) == lower_code(t[i])
}

/// The number of leading characters of `s` that satisfy `p`.
pub open spec fn leading_run(s: Seq<char>, p: spec_fn(char) -> bool) -> nat
    decreases s.len(),
{
    if s.len() > 0 && p(s[0]) {
        1 + leading_run(s.drop_first(), p)
    } else {
        0
    }
}

/// `k` is the length of the longest prefix of `s` whose characters satisfy
/// `p` exactly when every character before `k` satisfies `p` and the one at
/// `k` (if any) does not.
pub proof fn lemma_leading_run_exact(s: Seq<char>, p: spec_fn(char) -> bool, k: nat)
    requires
        k <= s.len(),
        forall|i: int| 0 <= i < k ==> p(#[trigger] s[i]),
        k == s.len() || !p(s[k as int]),
    ensures
        leading_run(s, p) == k,
    decreases k,
{
    if k > 0 {
        let t = s.drop_first();
        assert forall|i: int| 0 <= i < k - 1 implies p(#[trigger] t[i]) by {
            assert(t[i] == s[i + 1]);
        }
        lemma_leading_run_exact(t, p, (k - 1) as nat);
    }
}

/// The run that `leading_run` counts is maximal: every character in it
/// satisfies `p`, and the one right after it, if any, does not.
pub proof fn lemma_leading_run_stops(s: Seq<char>, p: spec_fn(char) -> bool)
    ensures
        leading_run(s, p) <= s.len(),
        forall|i: int| 0 <= i < leading_run(s, p) ==> p(#[trigger] s[i]),
        leading_run(s, p) < s.len() ==> !p(s[leading_run(s, p) as int]),
    decreases s.len(),
{
    if s.len() > 0 && p(s[0]) {
        let t = s.drop_first();
        lemma_leading_run_stops(t, p);
        assert forall|i: int| 0 <= i < leading_run(s, p) implies p(#[trigger] s[i]) by {
            if i > 0 {
                assert(s[i] == t[i - 1]);
            }
        }
        assert(leading_run(s, p) < s.len() ==> s[leading_run(s, p) as int] == t[leading_run(t, p) as int]);
    }
}

/// `a` and `b` are the same ASCII letter, one upper-case and one lower-case.
pub open spec fn other_case(a: char, b: char) -> bool {
    let x = a as u32;
    let y = b as u32;
    (65 <= x && x <= 90 && y == x + 32) || (97 <= x && x <= 122 && x == y + 32)
}

/// Law: matching without regard to ASCII case accepts exactly the texts
/// whose characters equal the pattern's, or are the same ASCII letter in the
/// other case; in particular `s` matches `t` whenever `s` is `t` with some
/// ASCII letters upper-cased.
pub proof fn lemma_no_case_match(s: Seq<char>, t: Seq<char>)
    ensures
        starts_with_no_case(s, t) <==> (t.len() <= s.len() && forall|i: int|
            0 <= i < t.len() ==> s[i] == t[i] || other_case(#[trigger] s[i], t[i])),
{
    if starts_with_no_case(s, t) {
        assert forall|i: int| 0 <= i < t.len() implies s[i] == t[i] || other_case(
            #[trigger] s[i],
            t[i],
        ) by {
            assert(lower_code(s[i]) == lower_code(t[i]));
            if s[i] as u32 == t[i] as u32 {
                vstd::utf8::char_u32_cast(s[i], s[i] as u32);
                vstd::utf8::char_u32_cast(t[i], t[i] as u32);
            }
        }
    }
    if t.len() <= s.len() && forall|i: int|
        0 <= i < t.len() ==> s[i] == t[i] || other_case(#[trigger] s[i], t[i]) {
        assert forall|i: int| 0 <= i < t.len() implies #[trigger] lower_code(s[i]) == lower_code(
            t[i],
        ) by {
            assert(s[i] == t[i] || other_case(s[i], t[i]));
        }
    }
}

/// Whether `t` is a prefix of `s`.
pub fn has_prefix(s: &str, t: &str) -> (b: bool)
    ensures
        b == starts_with(s@, t@),
{
    let n = s.unicode_len();
    let m = t.unicode_len();
    if m > n {
        return false;
    }
    let mut i: usize = 0;
    while i < m
        invariant
            m == t@.len(),
            n == s@.len(),
            m <= n,
            i <= m,
            forall|j: int| 0 <= j < i ==> s@[j] == t@[j],
        decreases m - i,
    {
        if s.get_char(i) != t.get_char(i) {
            assert(s@.take(m as int)[i as int] != t@[i as int]);
            return false;
        }
        i = i + 1;
    }
    assert(s@.take(m as int) =~= t@);
    true
}


/// Whether `a` and `b` hold the same text.
pub fn same_text(a: &str, b: &str) -> (r: bool)
    ensures
        r == (a@ == b@),
{
    if a.unicode_len() != b.unicode_len() {
        return false;
    }
    let r = has_prefix(a, b);
    proof {
        if r {
            assert(a@ =~= a@.take(b@.len() as int));
        }
    }
    r
}

} // verus!
