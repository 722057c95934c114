use vstd::prelude::*;

verus! {

use crate::errors::SigningError;

/// The padding strategies used to synthesize gap bytes between placed
/// content regions, and boundary padding when grafting past the end of
/// a file.
#[derive(Debug, Clone, Copy, PartialEq, Eq, Structural)]
pub enum FillPattern {
    Random,
    Zero,
    One,
}

impl Default for FillPattern {
    /// The default padding strategy fills gaps with zero bytes.
    fn default() -> (r: Self)
        ensures
            r == FillPattern::Zero,
    {
        FillPattern::Zero
    }
}

/// Whether `b` is a byte that the pattern `fill` may synthesize: zero or
/// one bytes are fixed, while a random pattern admits any byte.
pub open spec fn fill_byte_ok(fill: FillPattern, b: u8) -> bool {
    match fill {
        FillPattern::Zero => b == 0,
        FillPattern::One => b == 1,
        FillPattern::Random => true,
    }
}

/// Relies on rand::random: draws one byte from the thread-local PRNG.
/// Nothing is promised of the value.
#[verifier::external_body]
fn random_byte() -> u8 {
    rand::random::<u8>()
}

/// Extends `bytes` up to length `target` with bytes synthesized per `fill`,
/// leaving the existing prefix untouched.
pub(crate) fn pad_to(bytes: &mut Vec<u8>, target: usize, fill: &FillPattern)
    requires
        old(bytes)@.len() <= target,
    ensures
        final(bytes)@.len() == target,
        final(bytes)@.subrange(0, old(bytes)@.len() as int) == old(bytes)@,
        forall|i: int|
            old(bytes)@.len() <= i < target ==> fill_byte_ok(*fill, #[trigger] final(bytes)@[i]),
{
    let ghost orig = bytes@;
    while bytes.len() < target
        invariant
            orig.len() <= bytes@.len() <= target,
            bytes@.subrange(0, orig.len() as int) == orig,
            forall|i: int| orig.len() <= i < bytes@.len() ==> fill_byte_ok(*fill, #[trigger] bytes@[i]),
        decreases target - bytes@.len(),
    {
        let b: u8 = match fill {
            FillPattern::Zero => 0,
            FillPattern::One => 1,
            FillPattern::Random => random_byte(),
        };
        bytes.push(b);
        proof {
            assert(bytes@.subrange(0, orig.len() as int) =~= orig);
        }
    }
}

/// The placements a stitch job is made of: two parallel sequences read off
/// as (offset, item) pairs.
pub open spec fn placed_pairs<T>(offsets: Seq<usize>, items: Seq<T>) -> Seq<(usize, T)> {
    Seq::new(offsets.len(), |i: int| (offsets[i], items[i]))
}

/// The placements of a stitch job with each file's content read as a byte
/// sequence.
pub open spec fn view_pairs(offsets: Seq<usize>, items: Seq<Vec<u8>>) -> Seq<(usize, Seq<u8>)> {
    Seq::new(offsets.len(), |i: int| (offsets[i], items[i]@))
}

/// Whether every placement claims its own distinct target offset.
pub open spec fn distinct_offsets<T>(ps: Seq<(usize, T)>) -> bool {
    forall|i: int, j: int| 0 <= i < j < ps.len() ==> (#[trigger] ps[i]).0 != (#[trigger] ps[j]).0
}

/// Whether no placement's span `[offset, offset + len)` reaches into a
/// placement that starts above it.
pub open spec fn non_overlapping(ps: Seq<(usize, Seq<u8>)>) -> bool {
    forall|i: int, j: int|
        0 <= i < ps.len() && 0 <= j < ps.len() && (#[trigger] ps[i]).0 < (#[trigger] ps[j]).0
            ==> ps[i].0 + ps[i].1.len() <= ps[j].0
}

/// Whether some placement's span covers the byte position `pos`.
pub open spec fn covered(ps: Seq<(usize, Seq<u8>)>, pos: int) -> bool {
    exists|i: int| 0 <= i < ps.len() && (#[trigger] ps[i]).0 <= pos < ps[i].0 + ps[i].1.len()
}

/// Two equal elements at distinct positions give their value a
/// multiplicity of at least two.
proof fn lemma_dup_gives_count(s: Seq<usize>, i: int, j: int)
    requires
        0 <= i < j < s.len(),
        s[i] == s[j],
    ensures
        s.to_multiset().count(s[i]) >= 2,
{
    broadcast use vstd::seq_lib::group_to_multiset_ensures;
    broadcast use vstd::multiset::group_multiset_axioms;

    s.remove_ensures(i);
    assert(s.remove(i)[j - 1] == s[i]);
    assert(s.remove(i).contains(s[i]));
    assert(s.remove(i).to_multiset().count(s[i]) > 0);
    assert(s.remove(i).to_multiset() == s.to_multiset().remove(s[i]));
}

/// A multiplicity of at least two names two distinct positions holding
/// the value.
proof fn lemma_count_gives_dup(s: Seq<usize>, val: usize)
    requires
        s.to_multiset().count(val) >= 2,
    ensures
        exists|i: int, j: int| 0 <= i < j < s.len() && s[i] == val && s[j] == val,
{
    broadcast use vstd::seq_lib::group_to_multiset_ensures;
    broadcast use vstd::multiset::group_multiset_axioms;

    assert(s.contains(val));
    let i = choose|i: int| 0 <= i < s.len() && s[i] == val;
    s.remove_ensures(i);
    assert(s.remove(i).to_multiset() == s.to_multiset().remove(s[i]));
    assert(s.remove(i).to_multiset().count(val) >= 1);
    assert(s.remove(i).contains(val));
    let k = choose|k: int| 0 <= k < s.remove(i).len() && s.remove(i)[k] == val;
    if k < i {
        assert(s[k] == val && s[i] == val && k < i);
    } else {
        assert(s[k + 1] == val && s[i] == val && i < k + 1);
    }
}

/// A duplicated value survives reordering: when two runs hold the same
/// elements and one duplicates a value, so does the other.
proof fn lemma_dup_transfer(a: Seq<usize>, b: Seq<usize>)
    requires
        a.to_multiset() == b.to_multiset(),
        exists|i: int, j: int| 0 <= i < j < a.len() && #[trigger] a[i] == #[trigger] a[j],
    ensures
        exists|i: int, j: int| 0 <= i < j < b.len() && #[trigger] b[i] == #[trigger] b[j],
{
    let (i, j) = choose|i: int, j: int| 0 <= i < j < a.len() && #[trigger] a[i] == #[trigger] a[j];
    lemma_dup_gives_count(a, i, j);
    lemma_count_gives_dup(b, a[i]);
    let (x, y) = choose|x: int, y: int| 0 <= x < y < b.len() && b[x] == a[i] && b[y] == a[i];
    assert(0 <= x < y < b.len() && b[x] == b[y]);
}

/// A sorted run with no equal neighbours is strictly increasing.
proof fn lemma_strictly_sorted(s: Seq<usize>)
    requires
        forall|i: int, j: int| 0 <= i <= j < s.len() ==> #[trigger] s[i] <= #[trigger] s[j],
        forall|t: int| 1 <= t < s.len() ==> s[t - 1] != #[trigger] s[t],
    ensures
        forall|i: int, j: int| 0 <= i < j < s.len() ==> #[trigger] s[i] < #[trigger] s[j],
{
    assert forall|i: int, j: int| 0 <= i < j < s.len() implies #[trigger] s[i] < #[trigger] s[j] by {
        assert(s[i] <= s[i + 1] && s[i + 1] <= s[j]);
        if s[i] == s[j] {
            assert(s[i] == s[i + 1]);
            assert(s[i] != s[i + 1]);
        }
    }
}

/// When two parallel pairings hold the same pairs, each pair of the first
/// stands somewhere in the second.
proof fn lemma_pair_position<T>(
    a_off: Seq<usize>,
    a_items: Seq<T>,
    b_off: Seq<usize>,
    b_items: Seq<T>,
    i: int,
)
    requires
        a_off.len() == a_items.len(),
        b_off.len() == b_items.len(),
        placed_pairs(a_off, a_items).to_multiset() == placed_pairs(b_off, b_items).to_multiset(),
        0 <= i < a_off.len(),
    ensures
        exists|k: int|
            0 <= k < b_off.len() && #[trigger] b_off[k] == a_off[i] && b_items[k] == a_items[i],
{
    broadcast use vstd::seq_lib::group_to_multiset_ensures;

    let pa = placed_pairs(a_off, a_items);
    let pb = placed_pairs(b_off, b_items);
    assert(pa[i] == (a_off[i], a_items[i]));
    assert(pa.contains(pa[i]));
    assert(pa.to_multiset().count(pa[i]) > 0);
    assert(pb.contains(pa[i]));
    let k = choose|k: int| 0 <= k < pb.len() && pb[k] == pa[i];
    assert(b_off[k] == a_off[i] && b_items[k] == a_items[i]);
}

/// As lemma_pair_position, stated on the placements' content views.
proof fn lemma_view_pair_position(
    a_off: Seq<usize>,
    a_items: Seq<Vec<u8>>,
    b_off: Seq<usize>,
    b_items: Seq<Vec<u8>>,
    i: int,
)
    requires
        a_off.len() == a_items.len(),
        b_off.len() == b_items.len(),
        placed_pairs(a_off, a_items).to_multiset() == placed_pairs(b_off, b_items).to_multiset(),
        0 <= i < a_off.len(),
    ensures
        exists|k: int|
            0 <= k < b_off.len() && #[trigger] view_pairs(b_off, b_items)[k] == view_pairs(
                a_off,
                a_items,
            )[i],
{
    lemma_pair_position(a_off, a_items, b_off, b_items, i);
    let k = choose|k: int|
        0 <= k < b_off.len() && #[trigger] b_off[k] == a_off[i] && b_items[k] == a_items[i];
    assert(view_pairs(b_off, b_items)[k] == view_pairs(a_off, a_items)[i]);
}

/// Freedom from overlap does not depend on the order the placements are
/// given in.
proof fn lemma_non_overlap_transfer(
    a_off: Seq<usize>,
    a_items: Seq<Vec<u8>>,
    b_off: Seq<usize>,
    b_items: Seq<Vec<u8>>,
)
    requires
        a_off.len() == a_items.len(),
        b_off.len() == b_items.len(),
        placed_pairs(a_off, a_items).to_multiset() == placed_pairs(b_off, b_items).to_multiset(),
        non_overlapping(view_pairs(a_off, a_items)),
    ensures
        non_overlapping(view_pairs(b_off, b_items)),
{
    let pa = view_pairs(a_off, a_items);
    let pb = view_pairs(b_off, b_items);
    assert forall|i: int, j: int|
        0 <= i < pb.len() && 0 <= j < pb.len() && (#[trigger] pb[i]).0 < (#[trigger] pb[j]).0
        implies pb[i].0 + pb[i].1.len() <= pb[j].0 by {
        lemma_view_pair_position(b_off, b_items, a_off, a_items, i);
        lemma_view_pair_position(b_off, b_items, a_off, a_items, j);
        let p = choose|k: int| 0 <= k < a_off.len() && #[trigger] pa[k] == pb[i];
        let q = choose|k: int| 0 <= k < a_off.len() && #[trigger] pa[k] == pb[j];
        assert(pa[p].0 + pa[p].1.len() <= pa[q].0);
    }
}

/// A covered byte position stays covered when the placements are reordered.
proof fn lemma_covered_transfer(
    a_off: Seq<usize>,
    a_items: Seq<Vec<u8>>,
    b_off: Seq<usize>,
    b_items: Seq<Vec<u8>>,
    pos: int,
)
    requires
        a_off.len() == a_items.len(),
        b_off.len() == b_items.len(),
        placed_pairs(a_off, a_items).to_multiset() == placed_pairs(b_off, b_items).to_multiset(),
        covered(view_pairs(a_off, a_items), pos),
    ensures
        covered(view_pairs(b_off, b_items), pos),
{
    let pa = view_pairs(a_off, a_items);
    let pb = view_pairs(b_off, b_items);
    let t = choose|t: int| 0 <= t < pa.len() && (#[trigger] pa[t]).0 <= pos < pa[t].0 + pa[t].1.len();
    lemma_view_pair_position(a_off, a_items, b_off, b_items, t);
    let k = choose|k: int| 0 <= k < b_off.len() && #[trigger] pb[k] == pa[t];
    assert((#[trigger] pb[k]).0 <= pos < pb[k].0 + pb[k].1.len());
}

/// Orders the placements of a stitch job by target offset, ascending,
/// keeping each item paired with its own offset.
pub fn sort_vec_by_offset<T: Clone>(vec: Vec<T>, offset: Vec<usize>) -> (r: Result<
    (Vec<T>, Vec<usize>),
    SigningError,
>)
    requires
        vec@.len() == offset@.len(),
    ensures
        r matches Ok(sorted) && sorted.0@.len() == vec@.len() && sorted.1@.len() == offset@.len()
            && (forall|i: int, j: int|
            0 <= i <= j < sorted.1@.len() ==> #[trigger] sorted.1@[i] <= #[trigger] sorted.1@[j])
            && placed_pairs(sorted.1@, sorted.0@).to_multiset() == placed_pairs(
            offset@,
            vec@,
        ).to_multiset() && sorted.1@.to_multiset() == offset@.to_multiset(),
{
    let mut rem_v = vec;
    let mut rem_o = offset;
    let mut out_v: Vec<T> = Vec::new();
    let mut out_o: Vec<usize> = Vec::new();
    proof {
        broadcast use vstd::seq_lib::group_to_multiset_ensures;
        broadcast use vstd::multiset::group_multiset_axioms;

        assert(placed_pairs(out_o@, out_v@).len() == 0);
        assert(placed_pairs(out_o@, out_v@).to_multiset().len() == 0);
        assert(out_o@.to_multiset().len() == 0);
        assert(placed_pairs(out_o@, out_v@).to_multiset().add(
            placed_pairs(rem_o@, rem_v@).to_multiset(),
        ) =~= placed_pairs(offset@, vec@).to_multiset());
        assert(out_o@.to_multiset().add(rem_o@.to_multiset()) =~= offset@.to_multiset());
    }
    while rem_o.len() > 0
        invariant
            rem_v@.len() == rem_o@.len(),
            out_v@.len() == out_o@.len(),
            out_o@.len() + rem_o@.len() == offset@.len(),
            vec@.len() == offset@.len(),
            forall|i: int, j: int|
                0 <= i <= j < out_o@.len() ==> #[trigger] out_o@[i] <= #[trigger] out_o@[j],
            forall|i: int, j: int|
                0 <= i < out_o@.len() && 0 <= j < rem_o@.len() ==> #[trigger] out_o@[i]
                    <= #[trigger] rem_o@[j],
            placed_pairs(out_o@, out_v@).to_multiset().add(
                placed_pairs(rem_o@, rem_v@).to_multiset(),
            ) == placed_pairs(offset@, vec@).to_multiset(),
            out_o@.to_multiset().add(rem_o@.to_multiset()) == offset@.to_multiset(),
        decreases rem_o@.len(),
    {
        let mut min_idx: usize = 0;
        let mut k: usize = 1;
        while k < rem_o.len()
            invariant
                0 < rem_o@.len(),
                min_idx < k <= rem_o@.len(),
                forall|t: int| 0 <= t < k ==> rem_o@[min_idx as int] <= #[trigger] rem_o@[t],
            decreases rem_o@.len() - k,
        {
            if rem_o[k] < rem_o[min_idx] {
                min_idx = k;
            }
            k = k + 1;
        }
        let ghost pre_rem_o = rem_o@;
        let ghost pre_rem_v = rem_v@;
        let ghost pre_out_o = out_o@;
        let ghost pre_out_v = out_v@;
        let ghost m = min_idx as int;
        let o = rem_o.remove(min_idx);
        let v = rem_v.remove(min_idx);
        out_o.push(o);
        out_v.push(v);
        proof {
            broadcast use vstd::seq_lib::group_to_multiset_ensures;
            broadcast use vstd::multiset::group_multiset_axioms;

            pre_rem_o.remove_ensures(m);
            pre_rem_v.remove_ensures(m);
            let pair = (o, v);
            assert(placed_pairs(out_o@, out_v@) =~= placed_pairs(pre_out_o, pre_out_v).push(pair));
            assert(placed_pairs(rem_o@, rem_v@) =~= placed_pairs(pre_rem_o, pre_rem_v).remove(m));
            assert(placed_pairs(pre_rem_o, pre_rem_v)[m] == pair);
            assert(placed_pairs(pre_rem_o, pre_rem_v).to_multiset().count(pair) > 0);
            assert(placed_pairs(out_o@, out_v@).to_multiset().add(
                placed_pairs(rem_o@, rem_v@).to_multiset(),
            ) =~= placed_pairs(offset@, vec@).to_multiset());
            assert(pre_rem_o.to_multiset().count(o) > 0);
            assert(out_o@.to_multiset().add(rem_o@.to_multiset()) =~= offset@.to_multiset());
        }
    }
    Ok((out_v, out_o))
}

/// Whether a run holds the same value at two neighbouring positions.
fn has_adjacent_dup(so: &Vec<usize>) -> (r: bool)
    ensures
        r <==> exists|t: int| 1 <= t < so@.len() && so@[t - 1] == #[trigger] so@[t],
{
    let mut k: usize = 1;
    while k < so.len()
        invariant
            1 <= k,
            so@.len() == 0 || k <= so@.len(),
            forall|t: int| 1 <= t < k ==> so@[t - 1] != #[trigger] so@[t],
        decreases so@.len() - k,
    {
        if so[k] == so[k - 1] {
            proof {
                assert(1 <= k < so@.len() && so@[k - 1] == so@[k as int]);
            }
            return true;
        }
        k = k + 1;
    }
    false
}

/// One placement step: extends `bytes` to `offset` with `fill` bytes and
/// appends `new` there, or reports an overlap when `bytes` already reaches
/// past `offset`.
pub fn stitch(bytes: Vec<u8>, new: &Vec<u8>, offset: usize, fill: &FillPattern) -> (r: Result<
    Vec<u8>,
    SigningError,
>)
    ensures
        bytes@.len() > offset ==> r == Err::<Vec<u8>, SigningError>(SigningError::OverlapError),
        bytes@.len() <= offset ==> (r matches Ok(out) && out@.len() == offset + new@.len()
            && out@.subrange(0, bytes@.len() as int) == bytes@ && out@.subrange(
            offset as int,
            offset + new@.len(),
        ) == new@ && (forall|i: int|
            bytes@.len() <= i < offset ==> fill_byte_ok(*fill, #[trigger] out@[i]))),
{
    if bytes.len() > offset {
        return Err(SigningError::OverlapError);
    }
    let ghost orig = bytes@;
    let mut out = bytes;
    pad_to(&mut out, offset, fill);
    let ghost padded = out@;
    out.extend_from_slice(new.as_slice());
    proof {
        assert(out@.subrange(0, orig.len() as int) =~= padded.subrange(0, orig.len() as int));
        assert(out@.subrange(offset as int, offset + new@.len()) =~= new@);
    }
    Ok(out)
}

/// Folds placements that are already in strictly ascending offset order
/// into one buffer, filling each gap per `fill_pattern` and refusing a span
/// that reaches past the next placement's offset.
#[verifier::rlimit(100)]
#[verifier::loop_isolation(false)]
fn stitch_sorted(sv: Vec<Vec<u8>>, so: Vec<usize>, fill_pattern: FillPattern) -> (r: Result<
    Vec<u8>,
    SigningError,
>)
    requires
        sv@.len() == so@.len(),
        forall|i: int, j: int| 0 <= i < j < so@.len() ==> #[trigger] so@[i] < #[trigger] so@[j],
    ensures
        ({
            let qs = placed_pairs(so@, sv.deep_view());
            &&& non_overlapping(qs) ==> r is Ok
            &&& !non_overlapping(qs) ==> r == Err::<Vec<u8>, SigningError>(
                SigningError::OverlapError,
            )
            &&& r matches Ok(out) ==> {
                &&& forall|t: int|
                    0 <= t < qs.len() ==> out@.subrange(
                        (#[trigger] qs[t]).0 as int,
                        qs[t].0 + qs[t].1.len(),
                    ) == qs[t].1
                &&& qs.len() == 0 ==> out@.len() == 0
                &&& forall|t: int|
                    0 <= t < qs.len() ==> (#[trigger] qs[t]).0 + qs[t].1.len() <= out@.len()
                &&& qs.len() > 0 ==> out@.len() == (#[trigger] qs[qs.len() - 1]).0 + qs[qs.len()
                    - 1].1.len()
                &&& forall|pos: int|
                    0 <= pos < out@.len() && !covered(qs, pos) ==> fill_byte_ok(
                        fill_pattern,
                        #[trigger] out@[pos],
                    )
            }
        }),
{
    let ghost qs = placed_pairs(so@, sv.deep_view());
    proof {
        assert forall|t: int| 0 <= t < qs.len() implies (#[trigger] qs[t]).0 == so@[t] && qs[t].1
            == sv@[t]@ by {
            assert(sv@[t].deep_view() =~= sv@[t]@);
        }
    }
    let mut buf: Vec<u8> = Vec::new();
    let mut idx: usize = 0;
    while idx < so.len()
        invariant
            idx <= so@.len(),
            idx == 0 ==> buf@.len() == 0,
            idx > 0 ==> buf@.len() == (#[trigger] qs[idx - 1]).0 + qs[idx - 1].1.len(),
            forall|t: int| 0 <= t < idx ==> (#[trigger] qs[t]).0 + qs[t].1.len() <= buf@.len(),
            forall|t: int|
                1 <= t < idx ==> qs[t - 1].0 + qs[t - 1].1.len() <= (#[trigger] qs[t]).0,
            forall|t: int|
                0 <= t < idx ==> buf@.subrange(
                    (#[trigger] qs[t]).0 as int,
                    qs[t].0 + qs[t].1.len(),
                ) == qs[t].1,
            forall|pos: int|
                0 <= pos < buf@.len() && !covered(qs.take(idx as int), pos) ==> fill_byte_ok(
                    fill_pattern,
                    #[trigger] buf@[pos],
                ),
        decreases so@.len() - idx,
    {
        let ghost pre_buf = buf@;
        let off = so[idx];
        buf = match stitch(buf, &sv[idx], off, &fill_pattern) {
            Ok(b) => b,
            Err(_) => {
                proof {
                    // The span placed before `idx` reaches past the offset
                    // claimed at `idx`: these two placements overlap.
                    assert(idx > 0);
                    assert(qs[idx - 1].0 < qs[idx as int].0);
                    assert(qs[idx - 1].0 + qs[idx - 1].1.len() > qs[idx as int].0);
                    assert(!non_overlapping(qs));
                }
                return Err(SigningError::OverlapError);
            },
        };
        proof {
            let t0 = idx as int;
            assert forall|t: int| 0 <= t < t0 + 1 implies buf@.subrange(
                (#[trigger] qs[t]).0 as int,
                qs[t].0 + qs[t].1.len(),
            ) == qs[t].1 by {
                if t < t0 {
                    assert(buf@.subrange(0, pre_buf.len() as int) == pre_buf);
                    assert(buf@.subrange(qs[t].0 as int, qs[t].0 + qs[t].1.len())
                        =~= pre_buf.subrange(qs[t].0 as int, qs[t].0 + qs[t].1.len()));
                } else {
                    assert(buf@.subrange(qs[t0].0 as int, qs[t0].0 + qs[t0].1.len()) == sv@[t0]@);
                }
            }
            assert forall|pos: int|
                0 <= pos < buf@.len() && !covered(qs.take(t0 + 1), pos) implies fill_byte_ok(
                fill_pattern,
                #[trigger] buf@[pos],
            ) by {
                if pos < pre_buf.len() {
                    assert(!covered(qs.take(t0), pos)) by {
                        if covered(qs.take(t0), pos) {
                            let w = choose|i: int|
                                0 <= i < qs.take(t0).len() && (#[trigger] qs.take(t0)[i]).0 <= pos
                                    < qs.take(t0)[i].0 + qs.take(t0)[i].1.len();
                            assert(qs.take(t0 + 1)[w] == qs[w]);
                            assert(covered(qs.take(t0 + 1), pos));
                        }
                    }
                    assert(buf@.subrange(0, pre_buf.len() as int) == pre_buf);
                    assert(buf@[pos] == pre_buf[pos]);
                } else if pos < so@[t0] {
                    assert(fill_byte_ok(fill_pattern, buf@[pos]));
                } else {
                    assert(qs.take(t0 + 1)[t0] == qs[t0]);
                    assert(covered(qs.take(t0 + 1), pos));
                }
            }
        }
        idx = idx + 1;
    }
    proof {
        let n = qs.len() as int;
        assert forall|i: int, j: int|
            0 <= i < n && 0 <= j < n && (#[trigger] qs[i]).0 < (#[trigger] qs[j]).0 implies qs[i].0
            + qs[i].1.len() <= qs[j].0 by {
            assert(i < j) by {
                if j < i {
                    assert(so@[j] < so@[i]);
                }
            }
            assert(qs[i].0 + qs[i].1.len() <= qs[i + 1].0);
            if i + 1 < j {
                assert(so@[i + 1] < so@[j]);
            }
        }
        assert(non_overlapping(qs));
        assert(qs.take(n) =~= qs);
    }
    Ok(buf)
}

/// Combines the placed files into one output buffer: each file is laid
/// down at its own offset, gaps between spans are filled with bytes
/// synthesized per `fill_pattern`, two files claiming one offset are
/// rejected, and so is a file whose span overlaps another's.
#[verifier::rlimit(100)]
pub fn stitch_files(files: Vec<Vec<u8>>, offsets: Vec<usize>, fill_pattern: FillPattern) -> (r:
    Result<Vec<u8>, SigningError>)
    requires
        files@.len() == offsets@.len(),
    ensures
        ({
            let ps = placed_pairs(offsets@, files.deep_view());
            &&& !distinct_offsets(ps) ==> r == Err::<Vec<u8>, SigningError>(
                SigningError::ArgumentError,
            )
            &&& distinct_offsets(ps) && !non_overlapping(ps) ==> r == Err::<Vec<u8>, SigningError>(
                SigningError::OverlapError,
            )
            &&& distinct_offsets(ps) && non_overlapping(ps) ==> r is Ok
            &&& r matches Ok(out) ==> {
                &&& forall|i: int|
                    0 <= i < ps.len() ==> out@.subrange(
                        (#[trigger] ps[i]).0 as int,
                        ps[i].0 + ps[i].1.len(),
                    ) == ps[i].1
                &&& ps.len() == 0 ==> out@.len() == 0
                &&& forall|i: int|
                    0 <= i < ps.len() ==> (#[trigger] ps[i]).0 + ps[i].1.len() <= out@.len()
                &&& ps.len() > 0 ==> exists|i: int|
                    0 <= i < ps.len() && out@.len() == (#[trigger] ps[i]).0 + ps[i].1.len()
                &&& forall|pos: int|
                    0 <= pos < out@.len() && !covered(ps, pos) ==> fill_byte_ok(
                        fill_pattern,
                        #[trigger] out@[pos],
                    )
            }
        }),
{
    let ghost in_off = offsets@;
    let ghost in_files = files@;
    let ghost ps = placed_pairs(offsets@, files.deep_view());
    proof {
        assert forall|i: int| 0 <= i < ps.len() implies (#[trigger] ps[i]) == view_pairs(
            in_off,
            in_files,
        )[i] by {
            assert(in_files[i].deep_view() =~= in_files[i]@);
        }
        assert(ps =~= view_pairs(in_off, in_files));
    }
    let sorted = match sort_vec_by_offset(files, offsets) {
        Ok(p) => p,
        Err(e) => {
            return Err(e);
        },
    };
    let sv = sorted.0;
    let so = sorted.1;
    if has_adjacent_dup(&so) {
        proof {
            let t = choose|t: int| 1 <= t < so@.len() && so@[t - 1] == #[trigger] so@[t];
            assert(0 <= t - 1 < t < so@.len() && so@[t - 1] == so@[t]);
            lemma_dup_transfer(so@, in_off);
            let (i, j) = choose|i: int, j: int|
                0 <= i < j < in_off.len() && #[trigger] in_off[i] == #[trigger] in_off[j];
            assert(ps[i].0 == ps[j].0);
            assert(!distinct_offsets(ps));
        }
        return Err(SigningError::ArgumentError);
    }
    proof {
        lemma_strictly_sorted(so@);
        assert(distinct_offsets(ps)) by {
            if !distinct_offsets(ps) {
                let (i, j) = choose|i: int, j: int|
                    0 <= i < j < ps.len() && (#[trigger] ps[i]).0 == (#[trigger] ps[j]).0;
                assert(in_off[i] == in_off[j]);
                lemma_dup_transfer(in_off, so@);
                let (x, y) = choose|x: int, y: int|
                    0 <= x < y < so@.len() && #[trigger] so@[x] == #[trigger] so@[y];
                assert(so@[x] < so@[y]);
            }
        }
    }
    let ghost svv = sv@;
    let ghost sod = so@;
    let ghost svd = sv.deep_view();
    let ghost qs = placed_pairs(sod, svd);
    proof {
        assert forall|t: int| 0 <= t < qs.len() implies (#[trigger] qs[t]) == view_pairs(
            sod,
            svv,
        )[t] by {
            assert(svv[t].deep_view() =~= svv[t]@);
        }
        assert(qs =~= view_pairs(sod, svv));
    }
    match stitch_sorted(sv, so, fill_pattern) {
        Ok(out) => {
            proof {
                assert(non_overlapping(qs));
                lemma_non_overlap_transfer(sod, svv, in_off, in_files);
                assert(non_overlapping(ps));
                assert forall|i: int| 0 <= i < ps.len() implies out@.subrange(
                    (#[trigger] ps[i]).0 as int,
                    ps[i].0 + ps[i].1.len(),
                ) == ps[i].1 && ps[i].0 + ps[i].1.len() <= out@.len() by {
                    lemma_view_pair_position(in_off, in_files, sod, svv, i);
                    let k = choose|k: int|
                        0 <= k < sod.len() && #[trigger] view_pairs(sod, svv)[k] == view_pairs(
                            in_off,
                            in_files,
                        )[i];
                    assert(qs[k] == ps[i]);
                    assert(out@.subrange(qs[k].0 as int, qs[k].0 + qs[k].1.len()) == qs[k].1);
                }
                if ps.len() > 0 {
                    let last = qs.len() - 1;
                    lemma_view_pair_position(sod, svv, in_off, in_files, last);
                    let w = choose|k: int|
                        0 <= k < in_off.len() && #[trigger] view_pairs(in_off, in_files)[k]
                            == view_pairs(sod, svv)[last];
                    assert(ps[w] == qs[last]);
                    assert(out@.len() == ps[w].0 + ps[w].1.len());
                    assert(exists|i: int|
                        0 <= i < ps.len() && out@.len() == (#[trigger] ps[i]).0 + ps[i].1.len());
                }
                assert forall|pos: int|
                    0 <= pos < out@.len() && !covered(ps, pos) implies fill_byte_ok(
                    fill_pattern,
                    #[trigger] out@[pos],
                ) by {
                    assert(!covered(qs, pos)) by {
                        if covered(qs, pos) {
                            lemma_covered_transfer(sod, svv, in_off, in_files, pos);
                            assert(covered(ps, pos));
                        }
                    }
                }
            }
            Ok(out)
        },
        Err(_) => {
            proof {
                assert(!non_overlapping(qs));
                assert(!non_overlapping(ps)) by {
                    if non_overlapping(ps) {
                        lemma_non_overlap_transfer(in_off, in_files, sod, svv);
                        assert(non_overlapping(qs));
                    }
                }
            }
            Err(SigningError::OverlapError)
        },
    }
}

} // verus!
