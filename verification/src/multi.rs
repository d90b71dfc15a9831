//! Repetition combinators.

use vstd::prelude::*;
use crate::bytes::tag;
use crate::error::{ErrorKind, IResult, ParseErr};
use crate::text::starts_with;

verus! {

/// The most memory, in bytes, that `count` reserves for its output up front.
pub const MAX_INITIAL_CAPACITY_BYTES: usize = 65536;

/// Strips `t` from the front of `s` as long as it is there, at most `n`
/// times: the number of times it was stripped, and what is left.
pub open spec fn tag_run(s: Seq<char>, t: Seq<char>, n: nat) -> (nat, Seq<char>)
    decreases n,
{
    if n == 0 || !starts_with(s, t) {
        (0, s)
    } else {
        let (k, r) = tag_run(s.skip(t.len() as int), t, (n - 1) as nat);
        (k + 1, r)
    }
}

/// `ins` and `outs` trace successive runs of `parser`: run `i` was given
/// `ins[i]` and returned the remaining input `ins[i + 1]` and the output
/// `outs[i]`.
pub open spec fn count_chain<'a, O, P: Fn(&'a str) -> IResult<'a, O>>(
    parser: P,
    ins: Seq<&'a str>,
    outs: Seq<O>,
) -> bool {
    &&& ins.len() == outs.len() + 1
    &&& forall|i: int|
        0 <= i < outs.len() ==> call_ensures(
            parser,
            (ins[i],),
            Ok::<(&'a str, O), ParseErr<'a>>((ins[i + 1], #[trigger] outs[i])),
        )
}

/// `count(parser, n)` applied to `input`: runs `parser` `n` times, each run
/// on what the previous one left. When all `n` runs succeed, the result is
/// what the last run left and the `n` outputs in order; otherwise the error
/// of the first run that failed, unchanged. The initial reservation of the
/// output vector is bounded by `MAX_INITIAL_CAPACITY_BYTES`, also for
/// outputs of size zero.
pub fn count<'a, O, P: Fn(&'a str) -> IResult<'a, O>>(parser: P, n: usize, input: &'a str) -> (r:
    IResult<'a, Vec<O>>)
    requires
        forall|s: &'a str| parser.requires((s,)),
    ensures
        r matches Ok((rest, out)) ==> exists|ins: Seq<&'a str>|
            {
                &&& #[trigger] count_chain(parser, ins, out@)
                &&& out@.len() == n
                &&& ins[0] == input
                &&& ins[n as int] == rest
            },
        r matches Err(e) ==> exists|ins: Seq<&'a str>, outs: Seq<O>|
            {
                &&& #[trigger] count_chain(parser, ins, outs)
                &&& outs.len() < n
                &&& ins[0] == input
                &&& call_ensures(parser, (ins.last(),), Err::<(&'a str, O), ParseErr<'a>>(e))
            },
{
    let max_initial_capacity = MAX_INITIAL_CAPACITY_BYTES / core::mem::size_of::<O>().max(1);
    let mut res: Vec<O> = Vec::with_capacity(n.min(max_initial_capacity));
    let mut cur: &'a str = input;
    let ghost mut ins: Seq<&'a str> = seq![input];
    let mut i: usize = 0;
    while i < n
        invariant
            i <= n,
            forall|s: &'a str| parser.requires((s,)),
            res@.len() == i,
            ins[0] == input,
            ins[i as int] == cur,
            count_chain(parser, ins, res@),
        decreases n - i,
    {
        let step = parser(cur);
        let ghost g = step;
        match step {
            Ok((rest, o)) => {
                let ghost old_ins = ins;
                let ghost old_outs = res@;
                res.push(o);
                proof {
                    ins = ins.push(rest);
                    assert forall|j: int| 0 <= j < res@.len() implies call_ensures(
                        parser,
                        (ins[j],),
                        Ok::<(&'a str, O), ParseErr<'a>>((ins[j + 1], #[trigger] res@[j])),
                    ) by {
                        if j < old_outs.len() {
                            assert(ins[j] == old_ins[j]);
                            assert(ins[j + 1] == old_ins[j + 1]);
                            assert(res@[j] == old_outs[j]);
                        } else {
                            assert(ins[j] == cur);
                            assert(ins[j + 1] == rest);
                            assert(res@[j] == o);
                        }
                    }
                }
                cur = rest;
            },
            Err(e) => {
                proof {
                    assert(count_chain(parser, ins, res@));
                    assert(ins.last() == cur);
                }
                return Err(e);
            },
        }
        i = i + 1;
    }
    let ghost outs = res@;
    let r: IResult<'a, Vec<O>> = Ok((cur, res));
    proof {
        assert(i == n);
        assert(r matches Ok((rest, out)) && out@ == outs && rest == cur);
        assert(count_chain(parser, ins, outs));
        assert(ins[n as int] == cur);
    }
    r
}

/// When each of the first `k` texts of `ins` starts with `t` and the next
/// one is what is left after it, and the run stops at `k` (because `k` is
/// `n` or the `k`-th text does not start with `t`), stripping `t` from the
/// first text at most `n` times strips it `k` times and leaves the `k`-th.
proof fn lemma_tag_chain(ins: Seq<Seq<char>>, t: Seq<char>, k: nat, n: nat)
    requires
        ins.len() == k + 1,
        k <= n,
        forall|i: int|
            0 <= i < k ==> starts_with(#[trigger] ins[i], t) && ins[i + 1] == ins[i].skip(
                t.len() as int,
            ),
        k == n || !starts_with(ins[k as int], t),
    ensures
        tag_run(ins[0], t, n) == (k, ins[k as int]),
    decreases k,
{
    if k > 0 {
        let rest = ins.drop_first();
        assert forall|i: int| 0 <= i < k - 1 implies starts_with(#[trigger] rest[i], t) && rest[i
            + 1] == rest[i].skip(t.len() as int) by {
            assert(rest[i] == ins[i + 1]);
            assert(starts_with(ins[i + 1], t));
        }
        assert(starts_with(ins[0], t));
        lemma_tag_chain(rest, t, (k - 1) as nat, (n - 1) as nat);
    }
}

/// `count(map(tag(t), |_| value), n)` applied to `input`: runs the tag
/// parser `n` times in a row. When all `n` runs succeed, the result is the
/// remaining input and `n` copies of `value`; otherwise the error of the
/// first run that failed. The initial reservation of the output vector is
/// bounded by `MAX_INITIAL_CAPACITY_BYTES`, also for zero-sized outputs.
pub fn count_mapped_tag<'a, O: Copy>(input: &'a str, t: &str, value: O, n: usize) -> (r: IResult<
    'a,
    Vec<O>,
>)
    ensures
        tag_run(input@, t@, n as nat).0 == n <==> r is Ok,
        r matches Ok((rest, out)) ==> {
            &&& rest@ == tag_run(input@, t@, n as nat).1
            &&& out@ == Seq::new(n as nat, |i: int| value)
        },
        r matches Err(e) ==> {
            &&& !e.is_failure()
            &&& e.info().input@ == tag_run(input@, t@, n as nat).1
            &&& e.info().code == ErrorKind::Tag
        },
{
    let mapped_tag = |s: &'a str| -> (pr: IResult<'a, O>)
        ensures
            starts_with(s@, t@) <==> pr is Ok,
            pr matches Ok((rest, o)) ==> rest@ == s@.skip(t@.len() as int) && o == value,
            pr matches Err(e) ==> !e.is_failure() && e.info().input@ == s@ && e.info().code
                == ErrorKind::Tag,
        {
            match tag(s, t) {
                Ok((rest, _)) => Ok((rest, value)),
                Err(e) => Err(e),
            }
        };
    let r = count(mapped_tag, n, input);
    let ghost result = r;
    proof {
        match result {
            Ok((rest, out)) => {
                let ins = choose|ins: Seq<&'a str>|
                    {
                        &&& #[trigger] count_chain(mapped_tag, ins, out@)
                        &&& out@.len() == n
                        &&& ins[0] == input
                        &&& ins[n as int] == rest
                    };
                let views = ins.map_values(|x: &'a str| x@);
                assert forall|i: int| 0 <= i < n implies starts_with(#[trigger] views[i], t@)
                    && views[i + 1] == views[i].skip(t@.len() as int) && out@[i] == value by {
                    let _ = out@[i];
                }
                lemma_tag_chain(views, t@, n as nat, n as nat);
                assert(out@ =~= Seq::new(n as nat, |i: int| value));
            },
            Err(e) => {
                let (ins, outs) = choose|ins: Seq<&'a str>, outs: Seq<O>|
                    {
                        &&& #[trigger] count_chain(mapped_tag, ins, outs)
                        &&& outs.len() < n
                        &&& ins[0] == input
                        &&& call_ensures(
                            mapped_tag,
                            (ins.last(),),
                            Err::<(&'a str, O), ParseErr<'a>>(e),
                        )
                    };
                let k = outs.len();
                let views = ins.map_values(|x: &'a str| x@);
                assert forall|i: int| 0 <= i < k implies starts_with(#[trigger] views[i], t@)
                    && views[i + 1] == views[i].skip(t@.len() as int) by {
                    let _ = outs[i];
                }
                assert(views[k as int] == ins.last()@);
                lemma_tag_chain(views, t@, k, n as nat);
            },
        }
    }
    r
}

} // verus!

verus! {

/// `t` written `n` times in a row.
pub open spec fn repeat_seq(t: Seq<char>, n: nat) -> Seq<char>
    decreases n,
{
    if n == 0 {
        Seq::empty()
    } else {
        repeat_seq(t, (n - 1) as nat) + t
    }
}

proof fn lemma_repeat_front(t: Seq<char>, n: nat)
    requires
        n > 0,
    ensures
        repeat_seq(t, n) =~= t + repeat_seq(t, (n - 1) as nat),
    decreases n,
{
    if n > 1 {
        lemma_repeat_front(t, (n - 1) as nat);
        assert(repeat_seq(t, n) =~= t + repeat_seq(t, (n - 2) as nat) + t);
    } else {
        assert(repeat_seq(t, 0) =~= Seq::<char>::empty());
    }
}

/// Law: on `t` repeated `n` times followed by any `u`, the tag runs of
/// `count` all succeed and leave exactly `u`.
pub proof fn lemma_count_repeated_tag(t: Seq<char>, u: Seq<char>, n: nat)
    ensures
        tag_run(repeat_seq(t, n) + u, t, n) == (n, u),
    decreases n,
{
    if n == 0 {
        assert(repeat_seq(t, 0) + u =~= u);
    } else {
        lemma_repeat_front(t, n);
        let s = repeat_seq(t, n) + u;
        assert(s =~= t + (repeat_seq(t, (n - 1) as nat) + u));
        assert(s.take(t.len() as int) =~= t);
        assert(s.skip(t.len() as int) =~= repeat_seq(t, (n - 1) as nat) + u);
        lemma_count_repeated_tag(t, u, (n - 1) as nat);
    }
}

} // verus!
