use vstd::prelude::*;

verus! {

use crate::errors::SigningError;

/// Copies the byte range `[start, start + size)` out of `victim`, reading
/// forward in fragments of `fragment_size` bytes and truncating the final
/// fragment to the remaining byte count.
///
/// The start offset must lie within the source, and the source must hold
/// `size` bytes past it; otherwise the seek or the read is reported to
/// have failed and nothing is produced.
pub fn cut_out_bytes(victim: &Vec<u8>, start: usize, size: usize, fragment_size: usize) -> (r:
    Result<Vec<u8>, SigningError>)
    requires
        fragment_size >= 1,
    ensures
        start > victim@.len() ==> r == Err::<Vec<u8>, SigningError>(SigningError::SeekError),
        start <= victim@.len() && size > victim@.len() - start ==> r == Err::<
            Vec<u8>,
            SigningError,
        >(SigningError::ReadingError),
        start + size <= victim@.len() ==> (r matches Ok(out) && out@ == victim@.subrange(
            start as int,
            start + size,
        )),
{
    let len = victim.len();
    if start > len {
        return Err(SigningError::SeekError);
    }
    if size > len - start {
        return Err(SigningError::ReadingError);
    }
    let mut out: Vec<u8> = Vec::new();
    let mut copied: usize = 0;
    while copied < size
        invariant
            len == victim@.len(),
            start + size <= len,
            copied <= size,
            fragment_size >= 1,
            out@ == victim@.subrange(start as int, start + copied),
        decreases size - copied,
    {
        let fragment: usize = if size - copied < fragment_size {
            size - copied
        } else {
            fragment_size
        };
        let mut j: usize = 0;
        while j < fragment
            invariant
                len == victim@.len(),
                start + size <= len,
                copied + fragment <= size,
                j <= fragment,
                out@ == victim@.subrange(start as int, start + copied + j),
            decreases fragment - j,
        {
            out.push(victim[start + copied + j]);
            proof {
                assert(out@ =~= victim@.subrange(start as int, start + copied + j + 1));
            }
            j = j + 1;
        }
        copied = copied + fragment;
    }
    Ok(out)
}

} // verus!
