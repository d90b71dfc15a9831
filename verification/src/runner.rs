//! The harness side of the properties: counting, seeds, verdict mapping and
//! the JSON report line.

use vstd::prelude::*;
use vstd::string::*;
use crate::etna::{
    float_verdict, infinity_casing, payload_seed, property_count_handles_zero_sized_output,
    property_float_parses_infinity_fully, property_multispace0_consumes_all_whitespace,
    PropertyResult,
};
use crate::fmt::{decimal, decimal_string};
use crate::text::{has_prefix, same_text, starts_with};

verus! {

/// How many inputs a run tried and how long it took, in microseconds.
#[derive(Debug, Default, Clone, Copy)]
pub struct Metrics {
    pub inputs: u64,
    pub elapsed_us: u128,
}

impl Metrics {
    /// The totals of two runs.
    pub fn combine(self, other: Metrics) -> (r: Metrics)
        requires
            self.inputs + other.inputs <= u64::MAX,
            self.elapsed_us + other.elapsed_us <= u128::MAX,
        ensures
            r.inputs == self.inputs + other.inputs,
            r.elapsed_us == self.elapsed_us + other.elapsed_us,
    {
        Metrics {
            inputs: self.inputs + other.inputs,
            elapsed_us: self.elapsed_us + other.elapsed_us,
        }
    }
}

/// A verdict as a run outcome: a failure carries its message; a pass or a
/// discarded input is no failure.
pub fn to_err(r: PropertyResult) -> (o: Result<(), String>)
    ensures
        match r {
            PropertyResult::Fail(m) => o == Err::<(), String>(m),
            _ => o is Ok,
        },
{
    match r {
        PropertyResult::Pass | PropertyResult::Discard => Ok(()),
        PropertyResult::Fail(m) => Err(m),
    }
}

/// A verdict in the form a search that may discard inputs expects:
/// `Some(true)` for a pass, `Some(false)` for a failure, `None` for a
/// discarded input.
pub fn verdict_option(r: &PropertyResult) -> (o: Option<bool>)
    ensures
        match r {
            PropertyResult::Pass => o == Some(true),
            PropertyResult::Fail(_) => o == Some(false),
            PropertyResult::Discard => o is None,
        },
{
    match r {
        PropertyResult::Pass => Some(true),
        PropertyResult::Fail(_) => Some(false),
        PropertyResult::Discard => None,
    }
}

/// One step of a run over several properties: adds the metrics of the
/// property just run to `total`; an error stops the run (`Err`, with the
/// message and the new total), otherwise the run goes on with the new total.
pub fn run_all_step(total: Metrics, outcome: (Result<(), String>, Metrics)) -> (r: Result<
    Metrics,
    (String, Metrics),
>)
    requires
        total.inputs + outcome.1.inputs <= u64::MAX,
        total.elapsed_us + outcome.1.elapsed_us <= u128::MAX,
    ensures
        match outcome.0 {
            Ok(_) => r matches Ok(t) && t == total.spec_combine(outcome.1),
            Err(e) => r matches Err((m, t)) && m == e && t == total.spec_combine(outcome.1),
        },
{
    let (result, m) = outcome;
    let next = total.combine(m);
    match result {
        Ok(()) => Ok(next),
        Err(e) => Err((e, next)),
    }
}

impl Metrics {
    /// The totals of two runs.
    pub open spec fn spec_combine(self, other: Metrics) -> Metrics {
        Metrics {
            inputs: (self.inputs + other.inputs) as u64,
            elapsed_us: (self.elapsed_us + other.elapsed_us) as u128,
        }
    }
}

/// One step of the linear congruential generator that expands seeds.
pub open spec fn lcg_next(s: u64) -> u64 {
    s.wrapping_mul(6364136223846793005u64).wrapping_add(1442695040888963407u64)
}

/// The generator state after `k` steps from `seed`.
pub open spec fn lcg_state(seed: u64, k: nat) -> u64
    decreases k,
{
    if k == 0 {
        seed
    } else {
        lcg_next(lcg_state(seed, (k - 1) as nat))
    }
}

/// How many bytes a seed expands to: 1 to 9, from its top four bits.
pub open spec fn seed_len(seed: u64) -> nat {
    ((seed >> 60u64) % 9 + 1) as nat
}

/// Expands a seed into 1 to 9 bytes: the length comes from the top four
/// bits, byte `k` from bits 33.. of the generator state after `k + 1` steps.
pub fn seed_to_bytes(seed: u64) -> (out: Vec<u8>)
    ensures
        out@.len() == seed_len(seed),
        1 <= out@.len() <= 9,
        forall|k: int|
            0 <= k < out@.len() ==> #[trigger] out@[k] == (lcg_state(seed, (k + 1) as nat)
                >> 33u64) as u8,
{
    proof {
        assert(seed >> 60u64 <= 15u64) by (bit_vector);
        lemma_seed_len(seed);
    }
    let len = ((seed >> 60u64) as usize) % 9 + 1;
    let mut out: Vec<u8> = Vec::with_capacity(len);
    let mut s = seed;
    let mut i: usize = 0;
    while i < len
        invariant
            len == seed_len(seed),
            i <= len,
            s == lcg_state(seed, i as nat),
            out@.len() == i,
            forall|k: int|
                0 <= k < i ==> #[trigger] out@[k] == (lcg_state(seed, (k + 1) as nat) >> 33u64) as u8,
        decreases len - i,
    {
        s = s.wrapping_mul(6364136223846793005).wrapping_add(1442695040888963407);
        out.push((s >> 33u64) as u8);
        i = i + 1;
    }
    out
}

/// Spreads small numbers over the byte range: the top byte of the low 32
/// bits of `x` times 2654435761, modulo 2^32.
pub open spec fn spread_byte(x: usize) -> u8 {
    ((x as u32).wrapping_mul(2654435761u32) >> 24u32) as u8
}

/// Maps a number to a byte so that small numbers land all over the range.
pub fn usize_to_u8(x: usize) -> (r: u8)
    ensures
        r == spread_byte(x),
{
    let h = (x as u32).wrapping_mul(2654435761);
    (h >> 24u32) as u8
}

/// `usize_to_u8` applied to each element.
pub fn usize_vec_to_u8_vec(v: Vec<usize>) -> (r: Vec<u8>)
    ensures
        r@ == v@.map_values(|x: usize| spread_byte(x)),
{
    let mut r: Vec<u8> = Vec::new();
    let mut i: usize = 0;
    while i < v.len()
        invariant
            i <= v@.len(),
            r@ =~= v@.take(i as int).map_values(|x: usize| spread_byte(x)),
        decreases v@.len() - i,
    {
        r.push(usize_to_u8(v[i]));
        i = i + 1;
    }
    assert(v@.take(v@.len() as int) =~= v@);
    r
}

/// The texts of `parts`, with `sep` between each two of them.
pub open spec fn join_texts(parts: Seq<Seq<char>>, sep: Seq<char>) -> Seq<char>
    decreases parts.len(),
{
    if parts.len() == 0 {
        Seq::empty()
    } else if parts.len() == 1 {
        parts[0]
    } else {
        join_texts(parts.drop_last(), sep) + sep + parts.last()
    }
}

/// The texts of `parts` joined by single spaces.
pub fn join_with_spaces(parts: &Vec<String>) -> (r: String)
    ensures
        r@ == join_texts(parts@.map_values(|p: String| p@), " "@),
{
    let ghost views = parts@.map_values(|p: String| p@);
    let mut out = String::new();
    let mut i: usize = 0;
    while i < parts.len()
        invariant
            i <= parts@.len(),
            views == parts@.map_values(|p: String| p@),
            out@ == join_texts(views.take(i as int), " "@),
        decreases parts@.len() - i,
    {
        let ghost before = out@;
        if i > 0 {
            out.append(" ");
        }
        out.append(parts[i].as_str());
        proof {
            let t = views.take(i + 1);
            assert(t.drop_last() =~= views.take(i as int));
            assert(t.last() == parts@[i as int]@);
            if i == 0 {
                assert(views.take(0) =~= Seq::<Seq<char>>::empty());
                assert(out@ =~= t[0]);
            }
        }
        i = i + 1;
    }
    proof {
        assert(views.take(parts@.len() as int) =~= views);
    }
    out
}

/// How a randomized search over inputs ended.
pub enum SearchStatus {
    /// Every input passed.
    Finished,
    /// An input failed; the arguments it was made of, as text.
    Failed(Vec<String>),
    /// The search stopped on an error, given as text.
    Aborted(String),
    TimedOut,
    /// Too many inputs were discarded.
    GaveUp { passed: u64, discarded: u64 },
}

/// The run outcome of a search by `tool`: success when it finished, else
/// a message that names the tool and says how it ended.
pub fn search_outcome(tool: &str, status: SearchStatus) -> (r: Result<(), String>)
    ensures
        match status {
            SearchStatus::Finished => r is Ok,
            SearchStatus::Failed(args) => r matches Err(m) && m@ == tool@ + " counterexample: ("@
                + join_texts(args@.map_values(|p: String| p@), " "@) + ")"@,
            SearchStatus::Aborted(e) => r matches Err(m) && m@ == tool@ + " aborted: "@ + e@,
            SearchStatus::TimedOut => r matches Err(m) && m@ == tool@ + " timed out"@,
            SearchStatus::GaveUp { passed, discarded } => r matches Err(m) && m@ == tool@
                + " gave up: passed="@ + decimal(passed as nat) + ", discarded="@ + decimal(
                discarded as nat,
            ),
        },
{
    let mut m = String::from_str(tool);
    match status {
        SearchStatus::Finished => Ok(()),
        SearchStatus::Failed(args) => {
            m.append(" counterexample: (");
            m.append(join_with_spaces(&args).as_str());
            m.append(")");
            Err(m)
        },
        SearchStatus::Aborted(e) => {
            m.append(" aborted: ");
            m.append(e.as_str());
            Err(m)
        },
        SearchStatus::TimedOut => {
            m.append(" timed out");
            Err(m)
        },
        SearchStatus::GaveUp { passed, discarded } => {
            m.append(" gave up: passed=");
            m.append(decimal_string(passed as u128).as_str());
            m.append(", discarded=");
            m.append(decimal_string(discarded as u128).as_str());
            Err(m)
        },
    }
}

/// The text that starts the panic message of a hegel run that was asked
/// for a property it does not know; the property's name follows it.
pub const UNKNOWN_PROPERTY_MARKER: &'static str = "__unknown_property:";

/// The outcome of a hegel run, given the message of the panic that ended it
/// (`None` when it ran to the end) and its metrics. A message that starts
/// with `UNKNOWN_PROPERTY_MARKER` names a property hegel does not know: the
/// outcome is that error, with zero metrics. Any other message is a
/// counterexample.
pub fn hegel_outcome(panic_message: Option<String>, metrics: Metrics) -> (r: (
    Result<(), String>,
    Metrics,
))
    ensures
        match panic_message {
            None => r.0 is Ok && r.1 == metrics,
            Some(m) => if starts_with(m@, UNKNOWN_PROPERTY_MARKER@) {
                &&& r.0 matches Err(e) && e@ == "Unknown property for hegel: "@ + m@.skip(
                    UNKNOWN_PROPERTY_MARKER@.len() as int,
                )
                &&& r.1 == Metrics { inputs: 0, elapsed_us: 0 }
            } else {
                &&& r.0 matches Err(e) && e@ == "hegel found counterexample: "@ + m@
                &&& r.1 == metrics
            },
        },
{
    match panic_message {
        None => (Ok(()), metrics),
        Some(m) => {
            let text = m.as_str();
            if has_prefix(text, UNKNOWN_PROPERTY_MARKER) {
                let mut e = String::from_str("Unknown property for hegel: ");
                let k = UNKNOWN_PROPERTY_MARKER.unicode_len();
                let n = text.unicode_len();
                e.append(text.substring_char(k, n));
                (Err(e), Metrics { inputs: 0, elapsed_us: 0 })
            } else {
                let mut e = String::from_str("hegel found counterexample: ");
                e.append(text);
                (Err(e), metrics)
            }
        },
    }
}

/// `o` is the run outcome of the verdict `r`, as `to_err` gives it.
pub open spec fn outcome_of(r: PropertyResult, o: Result<(), String>) -> bool {
    match r {
        PropertyResult::Fail(m) => o == Err::<(), String>(m),
        _ => o is Ok,
    }
}

/// The outcome of the frozen witness of the property named `property`:
/// the multispace0 property on the payload `[2]`, the float property on
/// `[0]` (the literal `infinity`) with `convert` as the conversion to `f32`,
/// the count property on `2`. `Err` with a message for any other name.
pub fn etna_witness_outcome<F: Fn(&str) -> Option<(bool, String)>>(property: &str, convert: F) -> (r:
    Result<Result<(), String>, String>)
    requires
        forall|t: &str| convert.requires((t,)),
    ensures
        property@ == "Multispace0ConsumesAllWhitespace"@ ==> (r matches Ok(o) && o is Ok),
        property@ == "CountHandlesZeroSizedOutput"@ ==> (r matches Ok(o) && o is Ok),
        property@ == "FloatParsesInfinityFully"@ ==> (r matches Ok(o) && exists|
            t: &str,
            v: Option<(bool, String)>,
            pr: PropertyResult,
        |
            {
                &&& t@ == infinity_casing(0)
                &&& convert.ensures((t,), v)
                &&& #[trigger] float_verdict(t@, v, pr)
                &&& outcome_of(pr, o)
            }),
        property@ != "Multispace0ConsumesAllWhitespace"@ && property@
            != "CountHandlesZeroSizedOutput"@ && property@ != "FloatParsesInfinityFully"@ ==> (r matches Err(
            m) && m@ == "Unknown property: "@ + property@),
{
    proof {
        reveal_strlit("Multispace0ConsumesAllWhitespace");
        reveal_strlit("CountHandlesZeroSizedOutput");
        reveal_strlit("FloatParsesInfinityFully");
        assert("Multispace0ConsumesAllWhitespace"@.len() == 32);
        assert("CountHandlesZeroSizedOutput"@.len() == 27);
        assert("FloatParsesInfinityFully"@.len() == 24);
    }
    if same_text(property, "Multispace0ConsumesAllWhitespace") {
        let mut payload: Vec<u8> = Vec::new();
        payload.push(2u8);
        Ok(to_err(property_multispace0_consumes_all_whitespace(payload)))
    } else if same_text(property, "FloatParsesInfinityFully") {
        let mut payload: Vec<u8> = Vec::new();
        payload.push(0u8);
        proof {
            assert(payload_seed(payload@) == 0);
        }
        let pr = property_float_parses_infinity_fully(payload, convert);
        let ghost g = pr;
        let o = to_err(pr);
        proof {
            assert(outcome_of(g, o));
        }
        Ok(o)
    } else if same_text(property, "CountHandlesZeroSizedOutput") {
        Ok(to_err(property_count_handles_zero_sized_output(2u8)))
    } else {
        let mut m = String::from_str("Unknown property: ");
        m.append(property);
        Err(m)
    }
}

/// Law: every seed expands to between 1 and 9 bytes; the count is one more
/// than the seed's top four bits (its quotient by 2^60) modulo 9.
pub proof fn lemma_seed_len(seed: u64)
    ensures
        1 <= seed_len(seed) <= 9,
        seed_len(seed) == (seed as nat / 0x1000_0000_0000_0000) % 9 + 1,
{
    assert(seed >> 60u64 == seed / 0x1000_0000_0000_0000u64) by (bit_vector);
}

} // verus!
