//! General combinators.

use vstd::prelude::*;
use vstd::string::*;
use crate::error::IResult;

verus! {

/// `rest` is what remains of `input` after dropping some prefix.
pub open spec fn is_suffix_of(rest: Seq<char>, input: Seq<char>) -> bool {
    rest.len() <= input.len() && input.skip(input.len() - rest.len()) =~= rest
}

/// `recognize(p)` on `input`, given `inner`, the result of `p` on `input`:
/// when `p` succeeds, the result keeps `p`'s remaining input and replaces
/// its output by the part of `input` that `p` consumed; when `p` fails, its
/// error is returned unchanged.
pub fn recognize<'a, O>(input: &'a str, inner: IResult<'a, O>) -> (r: IResult<'a, &'a str>)
    requires
        inner matches Ok((rest, _)) ==> is_suffix_of(rest@, input@),
    ensures
        inner is Ok <==> r is Ok,
        inner matches Ok((rest, _)) ==> (r matches Ok((rest2, out)) && {
            &&& rest2 == rest
            &&& out@ == input@.take(input@.len() - rest@.len())
            &&& out@ + rest@ == input@
        }),
        inner matches Err(e) ==> (r matches Err(e2) && e2 == e),
{
    match inner {
        Ok((rest, _)) => {
            let n = input.unicode_len();
            let m = rest.unicode_len();
            let out = input.substring_char(0, n - m);
            proof {
                assert(out@ + rest@ =~= input@);
            }
            Ok((rest, out))
        },
        Err(e) => Err(e),
    }
}

} // verus!
