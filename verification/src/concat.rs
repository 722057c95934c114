use vstd::prelude::*;

verus! {

use crate::errors::SigningError;
use crate::signature::SIGNATURE_LENGTH;

/// The byte run `-signed` that is spliced into a signed file's name.
pub open spec fn signed_tag() -> Seq<u8> {
    seq![45u8, 115u8, 105u8, 103u8, 110u8, 101u8, 100u8]
}

/// The position of the last `.` in a name, or -1 when it has none.
pub open spec fn last_dot_index(s: Seq<u8>) -> int
    decreases s.len(),
{
    if s.len() == 0 {
        -1
    } else if s.last() == 46 {
        s.len() - 1
    } else {
        last_dot_index(s.drop_last())
    }
}

/// The name of the signed sibling of a file: `-signed` is spliced in just
/// before the final extension, or appended when the name has none.
pub open spec fn signed_name(s: Seq<u8>) -> Seq<u8> {
    let i = last_dot_index(s);
    if i >= 0 {
        s.take(i) + signed_tag() + s.skip(i)
    } else {
        s + signed_tag()
    }
}

/// A dot with nothing but non-dots after it is the last dot.
proof fn lemma_last_dot_at(s: Seq<u8>, i: int)
    requires
        0 <= i < s.len(),
        s[i] == 46,
        forall|t: int| i < t < s.len() ==> s[t] != 46,
    ensures
        last_dot_index(s) == i,
    decreases s.len(),
{
    if i < s.len() - 1 {
        lemma_last_dot_at(s.drop_last(), i);
    }
}

/// A name without any dot has no last dot.
proof fn lemma_no_dot(s: Seq<u8>)
    requires
        forall|t: int| 0 <= t < s.len() ==> s[t] != 46,
    ensures
        last_dot_index(s) == -1,
    decreases s.len(),
{
    if s.len() > 0 {
        lemma_no_dot(s.drop_last());
    }
}

/// Derives the name of the signed sibling of a file: `-signed` before the
/// final extension, or at the end when the name has no extension.
pub fn derive_output_filename(name: &Vec<u8>) -> (r: Vec<u8>)
    ensures
        r@ == signed_name(name@),
{
    let len = name.len();
    let mut j: usize = len;
    while j > 0
        invariant
            j <= len == name@.len(),
            forall|t: int| j <= t < len ==> name@[t] != 46,
        ensures
            j <= len,
            forall|t: int| j <= t < len ==> name@[t] != 46,
            j > 0 ==> name@[j - 1] == 46,
        decreases j,
    {
        if name[j - 1] == 46 {
            break ;
        }
        j = j - 1;
    }
    let cut: usize = j;
    proof {
        if cut > 0 {
            lemma_last_dot_at(name@, cut - 1);
        } else {
            lemma_no_dot(name@);
        }
    }
    let mut out: Vec<u8> = Vec::new();
    let mut i: usize = 0;
    let split: usize = if cut > 0 {
        cut - 1
    } else {
        len
    };
    while i < split
        invariant
            i <= split <= len == name@.len(),
            out@ == name@.subrange(0, i as int),
        decreases split - i,
    {
        out.push(name[i]);
        proof {
            assert(out@ =~= name@.subrange(0, i + 1));
        }
        i = i + 1;
    }
    out.push(45);
    out.push(115);
    out.push(105);
    out.push(103);
    out.push(110);
    out.push(101);
    out.push(100);
    let ghost tagged = out@;
    let mut t: usize = split;
    while t < len
        invariant
            split <= t <= len == name@.len(),
            out@ == tagged + name@.subrange(split as int, t as int),
        decreases len - t,
    {
        out.push(name[t]);
        proof {
            assert(out@ =~= tagged + name@.subrange(split as int, t + 1));
        }
        t = t + 1;
    }
    proof {
        assert(out@ =~= signed_name(name@));
    }
    out
}

/// Frames signed content: the payload followed by the 64-byte signature
/// trailer, with nothing in between. A signature of any other length is
/// rejected.
pub fn append_signature(content: &Vec<u8>, sig: &Vec<u8>) -> (r: Result<Vec<u8>, SigningError>)
    ensures
        sig@.len() != SIGNATURE_LENGTH ==> r == Err::<Vec<u8>, SigningError>(
            SigningError::ArgumentError,
        ),
        sig@.len() == SIGNATURE_LENGTH ==> (r matches Ok(out) && out@ == content@ + sig@),
{
    if sig.len() != SIGNATURE_LENGTH {
        return Err(SigningError::ArgumentError);
    }
    let mut out: Vec<u8> = Vec::new();
    out.extend_from_slice(content.as_slice());
    out.extend_from_slice(sig.as_slice());
    proof {
        assert(out@ =~= content@ + sig@);
    }
    Ok(out)
}

} // verus!
