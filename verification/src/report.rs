//! The one-line JSON report of a run.

use vstd::prelude::*;
use vstd::string::*;
use crate::fmt::{decimal, decimal_string, digit_char};
use crate::runner::Metrics;

verus! {

/// The lower-case hexadecimal digit for `d < 16`.
pub open spec fn hex_digit(d: nat) -> char {
    if d < 10 {
        (48 + d) as char
    } else {
        (87 + d) as char
    }
}

/// How one character is written inside a JSON string: quote, backslash,
/// line feed, carriage return and tab by their short escapes, the other
/// control characters as `\u00XX`, everything else as itself.
pub open spec fn json_escape_char(c: char) -> Seq<char> {
    if c == '"' {
        seq!['\\', '"']
    } else if c == '\\' {
        seq!['\\', '\\']
    } else if c == '\n' {
        seq!['\\', 'n']
    } else if c == '\r' {
        seq!['\\', 'r']
    } else if c == '\t' {
        seq!['\\', 't']
    } else if (c as u32) < 0x20 {
        seq![
            '\\',
            'u',
            '0',
            '0',
            hex_digit(((c as u32) / 16) as nat),
            hex_digit(((c as u32) % 16) as nat),
        ]
    } else {
        seq![c]
    }
}

/// The escaped form of a whole text.
pub open spec fn json_escape(s: Seq<char>) -> Seq<char>
    decreases s.len(),
{
    if s.len() == 0 {
        Seq::empty()
    } else {
        json_escape(s.drop_last()) + json_escape_char(s.last())
    }
}

/// A text as a JSON string literal.
pub open spec fn json_quoted(s: Seq<char>) -> Seq<char> {
    seq!['"'] + json_escape(s) + seq!['"']
}

/// The value of a hexadecimal digit of either case.
pub open spec fn hex_value(c: char) -> Option<nat> {
    let u = c as u32;
    if 48 <= u && u <= 57 {
        Some((u - 48) as nat)
    } else if 97 <= u && u <= 102 {
        Some((u - 87) as nat)
    } else if 65 <= u && u <= 70 {
        Some((u - 55) as nat)
    } else {
        None
    }
}

/// The code unit of a `\uXXXX` escape at the front of `s`, if one is there.
pub open spec fn unicode_escape_unit(s: Seq<char>) -> Option<nat> {
    if s.len() >= 6 && s[0] == '\\' && s[1] == 'u' {
        match (hex_value(s[2]), hex_value(s[3]), hex_value(s[4]), hex_value(s[5])) {
            (Some(a), Some(b), Some(c), Some(d)) => Some(a * 4096 + b * 256 + c * 16 + d),
            _ => None,
        }
    } else {
        None
    }
}

/// The character that a two-character escape `\e` stands for in JSON.
pub open spec fn short_unescape(e: char) -> Option<char> {
    if e == '"' {
        Some('"')
    } else if e == '\\' {
        Some('\\')
    } else if e == '/' {
        Some('/')
    } else if e == 'b' {
        Some('\u{8}')
    } else if e == 'f' {
        Some('\u{c}')
    } else if e == 'n' {
        Some('\n')
    } else if e == 'r' {
        Some('\r')
    } else if e == 't' {
        Some('\t')
    } else {
        None
    }
}

/// `c` followed by the text of `rest`, when there is one.
pub open spec fn prepend(c: char, rest: Option<Seq<char>>) -> Option<Seq<char>> {
    match rest {
        Some(r) => Some(seq![c] + r),
        None => None,
    }
}

/// The text that the inside of a JSON string literal (RFC 8259) stands for:
/// unescaped characters stand for themselves, except that a quote or a
/// control character may not appear; `\` starts a two-character escape, a
/// `\uXXXX` escape, or a surrogate pair of two of them. `None` when `s` is
/// not a valid inside of a string literal.
pub open spec fn json_decode_body(s: Seq<char>) -> Option<Seq<char>>
    decreases s.len(),
{
    if s.len() == 0 {
        Some(Seq::empty())
    } else if s[0] == '\\' {
        if s.len() >= 2 && short_unescape(s[1]) is Some {
            prepend(short_unescape(s[1]).unwrap(), json_decode_body(s.skip(2)))
        } else {
            match unicode_escape_unit(s) {
                Some(u) => if 0xD800 <= u && u < 0xDC00 {
                    match unicode_escape_unit(s.skip(6)) {
                        Some(l) => if 0xDC00 <= l && l < 0xE000 {
                            prepend(
                                (0x10000 + (u - 0xD800) * 1024 + (l - 0xDC00)) as char,
                                json_decode_body(s.skip(12)),
                            )
                        } else {
                            None
                        },
                        None => None,
                    }
                } else if 0xDC00 <= u && u < 0xE000 {
                    None
                } else {
                    prepend(u as char, json_decode_body(s.skip(6)))
                },
                None => None,
            }
        }
    } else if s[0] == '"' || (s[0] as u32) < 0x20 {
        None
    } else {
        prepend(s[0], json_decode_body(s.drop_first()))
    }
}

/// The text that a JSON string literal stands for, or `None` when `s` is
/// not one.
pub open spec fn json_decode(s: Seq<char>) -> Option<Seq<char>> {
    if s.len() >= 2 && s[0] == '"' && s.last() == '"' {
        json_decode_body(s.subrange(1, s.len() - 1))
    } else {
        None
    }
}

proof fn lemma_escape_front(s: Seq<char>)
    requires
        s.len() > 0,
    ensures
        json_escape(s) == json_escape_char(s[0]) + json_escape(s.drop_first()),
    decreases s.len(),
{
    if s.len() == 1 {
        assert(s.drop_last() =~= Seq::<char>::empty());
        assert(s.drop_first() =~= Seq::<char>::empty());
        assert(json_escape(s.drop_last()) =~= Seq::<char>::empty());
        assert(json_escape(s.drop_first()) =~= Seq::<char>::empty());
        assert(s.last() == s[0]);
        assert(json_escape(s) =~= json_escape_char(s[0]));
    } else {
        lemma_escape_front(s.drop_last());
        assert(s.drop_last().drop_first() =~= s.drop_first().drop_last());
        assert(s.drop_first().last() == s.last());
        assert(s.drop_last()[0] == s[0]);
        assert(json_escape(s) =~= json_escape_char(s[0]) + json_escape(s.drop_first()));
    }
}

proof fn lemma_hex_round_trip(d: nat)
    requires
        d < 16,
    ensures
        hex_value(hex_digit(d)) == Some(d),
{
}

proof fn lemma_decode_escaped_char(c: char, rest: Seq<char>, r: Seq<char>)
    requires
        json_decode_body(rest) == Some(r),
    ensures
        json_decode_body(json_escape_char(c) + rest) == Some(seq![c] + r),
{
    let x = json_escape_char(c) + rest;
    let u = c as u32;
    if c == '"' || c == '\\' || c == '\n' || c == '\r' || c == '\t' {
        assert(x.skip(2) =~= rest);
    } else if u < 0x20 {
        let hi = (u / 16) as nat;
        let lo = (u % 16) as nat;
        lemma_hex_round_trip(hi);
        lemma_hex_round_trip(lo);
        assert(x[1] == 'u');
        assert(x[2] == '0' && x[3] == '0' && x[4] == hex_digit(hi) && x[5] == hex_digit(lo));
        assert(unicode_escape_unit(x) == Some(u as nat));
        assert(x.skip(6) =~= rest);
        assert((u as nat) as char == c);
    } else {
        assert(x[0] == c);
        assert(x.drop_first() =~= rest);
    }
}

proof fn lemma_decode_escape(s: Seq<char>)
    ensures
        json_decode_body(json_escape(s)) == Some(s),
    decreases s.len(),
{
    if s.len() == 0 {
    } else {
        lemma_escape_front(s);
        lemma_decode_escape(s.drop_first());
        lemma_decode_escaped_char(s[0], json_escape(s.drop_first()), s.drop_first());
        assert(seq![s[0]] + s.drop_first() =~= s);
    }
}

proof fn lemma_escape_no_control(s: Seq<char>)
    ensures
        forall|i: int| 0 <= i < json_escape(s).len() ==> (#[trigger] json_escape(s)[i]) as u32 >= 0x20,
    decreases s.len(),
{
    if s.len() > 0 {
        lemma_escape_no_control(s.drop_last());
        let e = json_escape_char(s.last());
        assert forall|i: int| 0 <= i < e.len() implies (#[trigger] e[i]) as u32 >= 0x20 by {
            let u = s.last() as u32;
            if u < 0x20 && !(s.last() == '"' || s.last() == '\\' || s.last() == '\n' || s.last() == '\r' || s.last() == '\t') {
                assert(hex_digit((u / 16) as nat) as u32 >= 48);
                assert(hex_digit((u % 16) as nat) as u32 >= 48);
            }
        }
        let a = json_escape(s.drop_last());
        assert forall|i: int| 0 <= i < json_escape(s).len() implies (#[trigger] json_escape(s)[i]) as u32 >= 0x20 by {
            if i < a.len() {
                assert(json_escape(s)[i] == a[i]);
            } else {
                assert(json_escape(s)[i] == e[i - a.len()]);
            }
        }
    }
}

/// Law: the text `json_str` writes for `s` is a JSON string literal that
/// stands for exactly `s`: it starts and ends with a double quote, holds no
/// raw control character, and decoding it gives `s` back.
pub proof fn lemma_json_quoted_round_trip(s: Seq<char>)
    ensures
        json_quoted(s)[0] == '"',
        json_quoted(s).last() == '"',
        forall|i: int| 0 <= i < json_quoted(s).len() ==> (#[trigger] json_quoted(s)[i]) as u32 >= 0x20,
        json_decode(json_quoted(s)) == Some(s),
{
    let q = json_quoted(s);
    let e = json_escape(s);
    lemma_decode_escape(s);
    lemma_escape_no_control(s);
    assert(q.subrange(1, q.len() - 1) =~= e);
    assert forall|i: int| 0 <= i < q.len() implies (#[trigger] q[i]) as u32 >= 0x20 by {
        if 1 <= i < q.len() - 1 {
            assert(q[i] == e[i - 1]);
        }
    }
}

fn hex_text(d: u32) -> (r: &'static str)
    requires
        d < 16,
    ensures
        r@ == seq![hex_digit(d as nat)],
{
    proof {
        reveal_strlit("0");
        reveal_strlit("1");
        reveal_strlit("2");
        reveal_strlit("3");
        reveal_strlit("4");
        reveal_strlit("5");
        reveal_strlit("6");
        reveal_strlit("7");
        reveal_strlit("8");
        reveal_strlit("9");
        reveal_strlit("a");
        reveal_strlit("b");
        reveal_strlit("c");
        reveal_strlit("d");
        reveal_strlit("e");
        reveal_strlit("f");
    }
    if d == 0 {
        "0"
    } else if d == 1 {
        "1"
    } else if d == 2 {
        "2"
    } else if d == 3 {
        "3"
    } else if d == 4 {
        "4"
    } else if d == 5 {
        "5"
    } else if d == 6 {
        "6"
    } else if d == 7 {
        "7"
    } else if d == 8 {
        "8"
    } else if d == 9 {
        "9"
    } else if d == 10 {
        "a"
    } else if d == 11 {
        "b"
    } else if d == 12 {
        "c"
    } else if d == 13 {
        "d"
    } else if d == 14 {
        "e"
    } else {
        "f"
    }
}

/// The two-character escape of a quote, backslash, line feed, carriage
/// return or tab.
fn short_escape(c: char) -> (r: &'static str)
    requires
        c == '"' || c == '\\' || c == '\n' || c == '\r' || c == '\t',
    ensures
        r@ == json_escape_char(c),
{
    proof {
        reveal_strlit("\\\"");
        reveal_strlit("\\\\");
        reveal_strlit("\\n");
        reveal_strlit("\\r");
        reveal_strlit("\\t");
    }
    if c == '"' {
        "\\\""
    } else if c == '\\' {
        "\\\\"
    } else if c == '\n' {
        "\\n"
    } else if c == '\r' {
        "\\r"
    } else {
        "\\t"
    }
}

/// The start of a `\u00XX` escape.
fn unicode_escape_prefix() -> (r: &'static str)
    ensures
        r@ == seq!['\\', 'u', '0', '0'],
{
    proof {
        reveal_strlit("\\u00");
    }
    "\\u00"
}

/// `s` as a JSON string literal, in double quotes and escaped.
pub fn json_str(s: &str) -> (r: String)
    ensures
        r@ == json_quoted(s@),
{
    proof {
        reveal_strlit("\"");
    }
    let mut out = String::from_str("\"");
    let n = s.unicode_len();
    let mut i: usize = 0;
    while i < n
        invariant
            n == s@.len(),
            i <= n,
            out@ =~= seq!['"'] + json_escape(s@.take(i as int)),
        decreases n - i,
    {
        let c = s.get_char(i);
        let ghost before = out@;
        if c == '"' || c == '\\' || c == '\n' || c == '\r' || c == '\t' {
            out.append(short_escape(c));
        } else if (c as u32) < 0x20 {
            out.append(unicode_escape_prefix());
            out.append(hex_text((c as u32) / 16));
            out.append(hex_text((c as u32) % 16));
        } else {
            let one = s.substring_char(i, i + 1);
            assert(one@ =~= seq![c]);
            out.append(one);
        }
        proof {
            assert(out@ =~= before + json_escape_char(c));
            let t = s@.take(i + 1);
            assert(t.drop_last() =~= s@.take(i as int));
            assert(t.last() == c);
            assert(json_escape(t) == json_escape(t.drop_last()) + json_escape_char(t.last()));
        }
        i = i + 1;
    }
    proof {
        assert(s@.take(n as int) =~= s@);
    }
    out.append("\"");
    out
}

/// A JSON string literal, or `null` when there is no text.
pub open spec fn json_opt(s: Option<Seq<char>>) -> Seq<char> {
    match s {
        Some(t) => json_quoted(t),
        None => "null"@,
    }
}

/// The report line of a run.
pub open spec fn json_line_spec(
    tool: Seq<char>,
    property: Seq<char>,
    status: Seq<char>,
    inputs: nat,
    elapsed_us: nat,
    counterexample: Option<Seq<char>>,
    error: Option<Seq<char>>,
) -> Seq<char> {
    "{\"status\":"@ + json_quoted(status) + ",\"tests\":"@ + decimal(inputs)
        + ",\"discards\":0,\"time\":"@ + json_quoted(decimal(elapsed_us) + "us"@)
        + ",\"counterexample\":"@ + json_opt(counterexample) + ",\"error\":"@ + json_opt(error)
        + ",\"tool\":"@ + json_quoted(tool) + ",\"property\":"@ + json_quoted(property) + "}"@
}

fn json_opt_str(s: Option<&str>) -> (r: String)
    ensures
        r@ == json_opt(
            match s {
                Some(t) => Some(t@),
                None => None,
            },
        ),
{
    match s {
        Some(t) => json_str(t),
        None => String::from_str("null"),
    }
}

/// The one-line JSON report of a run: its status, the number of inputs
/// tried, the time taken in microseconds, the counterexample or error if
/// any, the tool and the property.
pub fn json_line(
    tool: &str,
    property: &str,
    status: &str,
    metrics: Metrics,
    counterexample: Option<&str>,
    error: Option<&str>,
) -> (r: String)
    ensures
        r@ == json_line_spec(
            tool@,
            property@,
            status@,
            metrics.inputs as nat,
            metrics.elapsed_us as nat,
            match counterexample {
                Some(t) => Some(t@),
                None => None,
            },
            match error {
                Some(t) => Some(t@),
                None => None,
            },
        ),
{
    let mut time = decimal_string(metrics.elapsed_us);
    time.append("us");
    let mut out = String::from_str("{\"status\":");
    out.append(json_str(status).as_str());
    out.append(",\"tests\":");
    out.append(decimal_string(metrics.inputs as u128).as_str());
    out.append(",\"discards\":0,\"time\":");
    out.append(json_str(time.as_str()).as_str());
    out.append(",\"counterexample\":");
    out.append(json_opt_str(counterexample).as_str());
    out.append(",\"error\":");
    out.append(json_opt_str(error).as_str());
    out.append(",\"tool\":");
    out.append(json_str(tool).as_str());
    out.append(",\"property\":");
    out.append(json_str(property).as_str());
    out.append("}");
    proof {
        assert(out@ =~= json_line_spec(
            tool@,
            property@,
            status@,
            metrics.inputs as nat,
            metrics.elapsed_us as nat,
            match counterexample {
                Some(t) => Some(t@),
                None => None,
            },
            match error {
                Some(t) => Some(t@),
                None => None,
            },
        ));
    }
    out
}

/// The number that a text of decimal digits stands for.
pub open spec fn decimal_value(ds: Seq<char>) -> nat
    decreases ds.len(),
{
    if ds.len() == 0 {
        0
    } else {
        decimal_value(ds.drop_last()) * 10 + ((ds.last() as u32) - 48) as nat
    }
}

/// Every character of `ds` is an ASCII digit.
pub open spec fn all_digits(ds: Seq<char>) -> bool {
    forall|i: int| 0 <= i < ds.len() ==> 48 <= (#[trigger] ds[i]) as u32 && ds[i] as u32 <= 57
}

/// Law: the decimal text of `n` is a non-empty run of digits that stands
/// for `n`.
pub proof fn lemma_decimal_round_trip(n: nat)
    ensures
        decimal(n).len() > 0,
        all_digits(decimal(n)),
        decimal_value(decimal(n)) == n,
    decreases n,
{
    if n >= 10 {
        lemma_decimal_round_trip(n / 10);
        let ds = decimal(n);
        assert(ds.drop_last() =~= decimal(n / 10));
        assert(ds.last() == digit_char(n % 10));
        assert((digit_char(n % 10) as u32) == 48 + n % 10);
        assert(decimal_value(ds) == decimal_value(decimal(n / 10)) * 10 + n % 10);
        assert((n / 10) * 10 + n % 10 == n);
    } else {
        let ds = decimal(n);
        assert(ds.drop_last() =~= Seq::<char>::empty());
        assert(ds.last() == digit_char(n));
        assert((digit_char(n) as u32) == 48 + n);
        assert(decimal_value(ds) == decimal_value(ds.drop_last()) * 10 + n);
    }
}

/// Law: the `tests` field of a report line is the full number of inputs.
/// After the status comes `,"tests":`, then a run of digits that stands for
/// `inputs`, ended by a comma. The result is where that comma stands.
pub proof fn lemma_json_line_tests_field(
    tool: Seq<char>,
    property: Seq<char>,
    status: Seq<char>,
    inputs: nat,
    elapsed_us: nat,
    counterexample: Option<Seq<char>>,
    error: Option<Seq<char>>,
) -> (j: int)
    ensures
        ({
            let line = json_line_spec(
                tool,
                property,
                status,
                inputs,
                elapsed_us,
                counterexample,
                error,
            );
            let head = "{\"status\":"@ + json_quoted(status) + ",\"tests\":"@;
            &&& head.len() < j < line.len()
            &&& line.subrange(0, head.len() as int) == head
            &&& all_digits(line.subrange(head.len() as int, j))
            &&& decimal_value(line.subrange(head.len() as int, j)) == inputs
            &&& line[j] == ','
        }),
{
    reveal_strlit(",\"discards\":0,\"time\":");
    lemma_decimal_round_trip(inputs);
    let line = json_line_spec(tool, property, status, inputs, elapsed_us, counterexample, error);
    let head = "{\"status\":"@ + json_quoted(status) + ",\"tests\":"@;
    let d = decimal(inputs);
    let tail = ",\"discards\":0,\"time\":"@ + json_quoted(decimal(elapsed_us) + "us"@)
        + ",\"counterexample\":"@ + json_opt(counterexample) + ",\"error\":"@ + json_opt(error)
        + ",\"tool\":"@ + json_quoted(tool) + ",\"property\":"@ + json_quoted(property) + "}"@;
    assert(line =~= head + d + tail);
    let j: int = head.len() + d.len() as int;
    assert(line.subrange(0, head.len() as int) =~= head);
    assert(line.subrange(head.len() as int, j) =~= d);
    assert(tail[0] == ',');
    assert(line[j] == tail[0]);
    j
}

} // verus!
