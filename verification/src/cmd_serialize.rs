use vstd::prelude::*;

verus! {

use crate::errors::SigningError;
use vstd::string::StrSliceExecFns;

/// Whether `c` is one of the decimal digits `0` through `9`.
pub open spec fn is_dec_digit(c: char) -> bool {
    48 <= c as u32 <= 57
}

/// The numeric value of a decimal digit.
pub open spec fn digit_val(c: char) -> int {
    c as u32 - 48
}

/// The value of a run of decimal digits, most significant first.
pub open spec fn dec_val(s: Seq<char>) -> int
    decreases s.len(),
{
    if s.len() == 0 {
        0
    } else {
        dec_val(s.drop_last()) * 10 + digit_val(s.last())
    }
}

/// Whether `d` marks the end of the run of decimal digits that `s` opens
/// with.
pub open spec fn digit_split(s: Seq<char>, d: int) -> bool {
    0 <= d <= s.len() && (forall|i: int| 0 <= i < d ==> is_dec_digit(#[trigger] s[i])) && (d
        == s.len() || !is_dec_digit(s[d]))
}

/// The length of the run of decimal digits that `s` opens with.
pub open spec fn digit_prefix_len(s: Seq<char>) -> int
    decreases s.len(),
{
    if s.len() == 0 || !is_dec_digit(s[0]) {
        0
    } else {
        1 + digit_prefix_len(s.skip(1))
    }
}

/// The digit run a string opens with ends exactly where the first
/// non-digit stands.
proof fn lemma_digit_split_unique(s: Seq<char>, d: int)
    requires
        digit_split(s, d),
    ensures
        digit_prefix_len(s) == d,
    decreases s.len(),
{
    if s.len() == 0 {
    } else if !is_dec_digit(s[0]) {
    } else {
        assert(d > 0);
        assert forall|i: int| 0 <= i < d - 1 implies is_dec_digit(#[trigger] s.skip(1)[i]) by {
            assert(s.skip(1)[i] == s[i + 1]);
        }
        if d - 1 < s.skip(1).len() {
            assert(s.skip(1)[d - 1] == s[d]);
        }
        lemma_digit_split_unique(s.skip(1), d - 1);
    }
}

/// A run of digits never has a negative value.
proof fn lemma_dec_val_nonneg(s: Seq<char>)
    requires
        forall|i: int| 0 <= i < s.len() ==> is_dec_digit(#[trigger] s[i]),
    ensures
        dec_val(s) >= 0,
    decreases s.len(),
{
    if s.len() > 0 {
        lemma_dec_val_nonneg(s.drop_last());
    }
}

/// Reading further digits never shrinks the value read so far.
proof fn lemma_dec_val_prefix_le(s: Seq<char>, i: int, j: int)
    requires
        0 <= i <= j <= s.len(),
        forall|t: int| 0 <= t < j ==> is_dec_digit(#[trigger] s[t]),
    ensures
        dec_val(s.take(i)) <= dec_val(s.take(j)),
    decreases j - i,
{
    if i < j {
        lemma_dec_val_prefix_le(s, i, j - 1);
        assert(s.take(j).drop_last() =~= s.take(j - 1));
        assert(forall|t: int|
            0 <= t < s.take(j - 1).len() ==> is_dec_digit(#[trigger] s.take(j - 1)[t]));
        lemma_dec_val_nonneg(s.take(j - 1));
        assert(dec_val(s.take(j)) == dec_val(s.take(j - 1)) * 10 + digit_val(s[j - 1]));
    }
}

/// The multiplier a size suffix stands for: binary and decimal scale
/// prefixes of kilo, mega and giga, the empty suffix standing for one.
pub open spec fn suffix_factor(s: Seq<char>) -> Option<u64> {
    if s == seq!['K', 'i'] {
        Some(1024u64)
    } else if s == seq!['M', 'i'] {
        Some(1048576u64)
    } else if s == seq!['G', 'i'] {
        Some(1073741824u64)
    } else if s == seq!['K'] {
        Some(1000u64)
    } else if s == seq!['M'] {
        Some(1000000u64)
    } else if s == seq!['G'] {
        Some(1000000000u64)
    } else if s.len() == 0 {
        Some(1u64)
    } else {
        None
    }
}

/// Every size suffix scales by at least one.
proof fn lemma_suffix_factor_pos(s: Seq<char>)
    ensures
        suffix_factor(s) matches Some(f) ==> 1 <= f,
{
}

/// The value a human-friendly size string stands for: a run of decimal
/// digits followed by a size suffix, as long as the product fits in 64
/// bits.
pub open spec fn cmd_opt_value(s: Seq<char>) -> Option<u64> {
    let d = digit_prefix_len(s);
    if d == 0 {
        None
    } else {
        match suffix_factor(s.skip(d)) {
            Some(f) => {
                let v = dec_val(s.take(d)) * f;
                if v <= u64::MAX {
                    Some(v as u64)
                } else {
                    None
                }
            },
            None => None,
        }
    }
}

/// Maps a size suffix to its multiplier, rejecting anything it does not
/// know.
pub fn deserialize_suffix(n: &str) -> (r: Result<u64, SigningError>)
    ensures
        suffix_factor(n@) matches Some(v) ==> r == Ok::<u64, SigningError>(v),
        suffix_factor(n@) is None ==> r == Err::<u64, SigningError>(SigningError::ArgumentError),
{
    let len = n.unicode_len();
    if len == 0 {
        return Ok(1);
    }
    if len == 1 {
        let c = n.get_char(0);
        proof {
            assert(n@ =~= seq![n@[0]]);
        }
        if c == 'K' {
            proof {
                assert(n@ =~= seq!['K']);
            }
            return Ok(1000);
        }
        if c == 'M' {
            proof {
                assert(n@ =~= seq!['M']);
            }
            return Ok(1000000);
        }
        if c == 'G' {
            proof {
                assert(n@ =~= seq!['G']);
            }
            return Ok(1000000000);
        }
        return Err(SigningError::ArgumentError);
    }
    if len == 2 {
        let c0 = n.get_char(0);
        let c1 = n.get_char(1);
        proof {
            assert(n@ =~= seq![n@[0], n@[1]]);
        }
        if c0 == 'K' && c1 == 'i' {
            proof {
                assert(n@ =~= seq!['K', 'i']);
            }
            return Ok(1024);
        }
        if c0 == 'M' && c1 == 'i' {
            proof {
                assert(n@ =~= seq!['M', 'i']);
            }
            return Ok(1048576);
        }
        if c0 == 'G' && c1 == 'i' {
            proof {
                assert(n@ =~= seq!['G', 'i']);
            }
            return Ok(1073741824);
        }
        return Err(SigningError::ArgumentError);
    }
    Err(SigningError::ArgumentError)
}

/// Parses a human-friendly size such as a count of kibibytes into a plain
/// byte count: a run of decimal digits, then an optional scale suffix.
pub fn serialize_cmd_opt(flag: String) -> (r: Result<u64, SigningError>)
    ensures
        cmd_opt_value(flag@) matches Some(v) ==> r == Ok::<u64, SigningError>(v),
        cmd_opt_value(flag@) is None ==> r == Err::<u64, SigningError>(SigningError::ArgumentError),
{
    let s = flag.as_str();
    let len = s.unicode_len();
    let mut d: usize = 0;
    while d < len
        invariant
            d <= len == flag@.len(),
            s@ == flag@,
            forall|t: int| 0 <= t < d ==> is_dec_digit(#[trigger] flag@[t]),
        ensures
            d <= len,
            forall|t: int| 0 <= t < d ==> is_dec_digit(#[trigger] flag@[t]),
            d == len || !is_dec_digit(flag@[d as int]),
        decreases len - d,
    {
        let c = s.get_char(d);
        let cv = c as u32;
        if !(48 <= cv && cv <= 57) {
            break ;
        }
        d = d + 1;
    }
    proof {
        lemma_digit_split_unique(flag@, d as int);
    }
    if d == 0 {
        return Err(SigningError::ArgumentError);
    }
    let mut acc: u64 = 0;
    let mut i: usize = 0;
    while i < d
        invariant
            i <= d <= len == flag@.len(),
            s@ == flag@,
            forall|t: int| 0 <= t < d ==> is_dec_digit(#[trigger] flag@[t]),
            digit_prefix_len(flag@) == d,
            acc == dec_val(flag@.take(i as int)),
        decreases d - i,
    {
        let c = s.get_char(i);
        let dig = (c as u32 - 48) as u64;
        proof {
            assert(flag@.take(i + 1).drop_last() =~= flag@.take(i as int));
            assert(flag@.take(i + 1).last() == flag@[i as int]);
        }
        let step = match acc.checked_mul(10) {
            Some(x) => x.checked_add(dig),
            None => None,
        };
        match step {
            Some(x) => {
                acc = x;
            },
            None => {
                proof {
                    // The digits read so far already exceed 64 bits, so the
                    // whole product does, whatever the suffix.
                    assert(dec_val(flag@.take(i + 1)) > u64::MAX);
                    lemma_dec_val_prefix_le(flag@, i + 1, d as int);
                    let a = dec_val(flag@.take(d as int));
                    assert(a > u64::MAX);
                    let sk = flag@.skip(d as int);
                    lemma_suffix_factor_pos(sk);
                    if suffix_factor(sk) is Some {
                        let f = opt_or_zero(suffix_factor(sk));
                        assert(suffix_factor(sk) == Some(f));
                        assert(a * f >= a) by (nonlinear_arith)
                            requires
                                f >= 1,
                                a >= 0,
                        ;
                    }
                    assert(cmd_opt_value(flag@) is None);
                }
                return Err(SigningError::ArgumentError);
            },
        }
        i = i + 1;
    }
    let rest = s.substring_char(d, len);
    let factor = match deserialize_suffix(rest) {
        Ok(f) => f,
        Err(e) => {
            return Err(e);
        },
    };
    proof {
        assert(rest@ == flag@.skip(d as int));
        lemma_dec_val_nonneg(flag@.take(d as int));
    }
    match acc.checked_mul(factor) {
        Some(v) => Ok(v),
        None => Err(SigningError::ArgumentError),
    }
}

/// The value an optional argument carries, zero when it carries none.
pub open spec fn opt_or_zero(o: Option<u64>) -> u64 {
    match o {
        Some(v) => v,
        None => 0u64,
    }
}

/// Resolves the mutually-exclusive end and size options, with an optional
/// start offset, into a concrete (start, size) byte range. Exactly one of
/// `end` and `size` must be given, and an explicit end must lie past the
/// start.
pub fn resolve_range(start: Option<u64>, end: Option<u64>, size: Option<u64>) -> (r: Result<
    (u64, u64),
    SigningError,
>)
    ensures
        ({
            let s = opt_or_zero(start);
            let e = opt_or_zero(end);
            let z = opt_or_zero(size);
            &&& end is Some && size is Some ==> r == Err::<(u64, u64), SigningError>(
                SigningError::ArgumentError,
            )
            &&& end is None && size is None ==> r == Err::<(u64, u64), SigningError>(
                SigningError::ArgumentError,
            )
            &&& end is Some && size is None ==> (if s < e {
                r == Ok::<(u64, u64), SigningError>((s, (e - s) as u64))
            } else {
                r == Err::<(u64, u64), SigningError>(SigningError::ArgumentError)
            })
            &&& size is Some && end is None ==> r == Ok::<(u64, u64), SigningError>((s, z))
        }),
{
    let s = match start {
        Some(v) => v,
        None => 0,
    };
    match (end, size) {
        (Some(_), Some(_)) => Err(SigningError::ArgumentError),
        (None, None) => Err(SigningError::ArgumentError),
        (Some(e), None) => {
            if s < e {
                Ok((s, e - s))
            } else {
                Err(SigningError::ArgumentError)
            }
        },
        (None, Some(z)) => Ok((s, z)),
    }
}

} // verus!
