use vstd::prelude::*;

verus! {

use crate::errors::SigningError;
use crate::stitch::{FillPattern, fill_byte_ok, pad_to};

/// The length of the prefix of `input` that a graft at `start` keeps:
/// everything before `start`, clipped to the input's length.
pub open spec fn graft_prefix_end(input_len: int, start: int) -> int {
    if start <= input_len {
        start
    } else {
        input_len
    }
}

/// The position in `input` where the suffix kept after a graft begins:
/// the first byte past the replaced range, clipped to the input's length.
pub open spec fn graft_suffix_start(input_len: int, start: int, size: int) -> int {
    if start + size <= input_len {
        start + size
    } else {
        input_len
    }
}

/// Replaces the byte range `[start, start + size)` of `input` with the full
/// contents of `graft`, padding with `fill` bytes when `start` lies past the
/// end of `input`. The replaced range may extend past the end of the input;
/// the missing tail is treated as empty. A zero-length range is rejected.
pub fn graft_bytes(
    input: &Vec<u8>,
    graft: &Vec<u8>,
    start: usize,
    size: usize,
    fill: &FillPattern,
) -> (r: Result<Vec<u8>, SigningError>)
    ensures
        size == 0 ==> r == Err::<Vec<u8>, SigningError>(SigningError::ArgumentError),
        size >= 1 ==> (r matches Ok(out) && {
            let pre = graft_prefix_end(input@.len() as int, start as int);
            let suf = graft_suffix_start(input@.len() as int, start as int, size as int);
            &&& out@.len() == start + graft@.len() + (input@.len() - suf)
            &&& out@.subrange(0, pre) == input@.subrange(0, pre)
            &&& forall|i: int| pre <= i < start ==> fill_byte_ok(*fill, #[trigger] out@[i])
            &&& out@.subrange(start as int, start + graft@.len()) == graft@
            &&& out@.subrange(start + graft@.len(), out@.len() as int) == input@.subrange(
                suf,
                input@.len() as int,
            )
        }),
{
    if size == 0 {
        return Err(SigningError::ArgumentError);
    }
    let len = input.len();
    let prefix_end: usize = if start <= len {
        start
    } else {
        len
    };
    let mut out: Vec<u8> = Vec::new();
    let mut i: usize = 0;
    while i < prefix_end
        invariant
            prefix_end <= len == input@.len(),
            i <= prefix_end,
            out@ == input@.subrange(0, i as int),
        decreases prefix_end - i,
    {
        out.push(input[i]);
        proof {
            assert(out@ =~= input@.subrange(0, i + 1));
        }
        i = i + 1;
    }
    pad_to(&mut out, start, fill);
    let ghost padded = out@;
    out.extend_from_slice(graft.as_slice());
    let ghost with_graft = out@;
    let suffix_start: usize = if size <= len && start <= len - size {
        start + size
    } else {
        len
    };
    let mut j: usize = suffix_start;
    while j < len
        invariant
            suffix_start <= j <= len == input@.len(),
            out@ == with_graft + input@.subrange(suffix_start as int, j as int),
        decreases len - j,
    {
        out.push(input[j]);
        proof {
            assert(out@ =~= with_graft + input@.subrange(suffix_start as int, j + 1));
        }
        j = j + 1;
    }
    proof {
        let pre = graft_prefix_end(input@.len() as int, start as int);
        assert(out@.subrange(0, pre) =~= input@.subrange(0, pre));
        assert(out@.subrange(start as int, start + graft@.len()) =~= graft@);
        assert(out@.subrange(start + graft@.len(), out@.len() as int) =~= input@.subrange(
            suffix_start as int,
            input@.len() as int,
        ));
    }
    Ok(out)
}

} // verus!
