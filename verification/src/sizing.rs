//! Tiling size arithmetic. A sibling group of tiling containers shares its
//! parent's primary axis: the sizes are fixed-point fractions (units of
//! `1/FULL_SIZE`) that sum to exactly `FULL_SIZE`, each at least
//! `MIN_TILING_SIZE`. The functions here keep that invariant exactly:
//! resizing one member clamps the delta to the siblings' headroom and
//! distributes it with cumulative rounding, so no unit is ever lost.

use vstd::prelude::*;
use vstd::arithmetic::div_mod::{lemma_div_is_ordered, lemma_hoist_over_denominator};

use crate::{FULL_SIZE, MIN_TILING_SIZE};

verus! {

/// Sum of a group of sizes.
pub open spec fn sum_sizes(s: Seq<u32>) -> int
    decreases s.len(),
{
    if s.len() == 0 {
        0
    } else {
        sum_sizes(s.drop_last()) + s.last()
    }
}

/// Well-formedness of a tiling sibling group: every size is at least the
/// minimum, and a non-empty group sums to exactly `FULL_SIZE`.
pub open spec fn group_wf(s: Seq<u32>) -> bool {
    &&& forall|i: int| 0 <= i < s.len() ==> (MIN_TILING_SIZE as int) <= #[trigger] s[i]
    &&& s.len() > 0 ==> sum_sizes(s) == FULL_SIZE as int
}

/// Headroom available from the siblings of `idx`: how much the group can
/// give to `idx` before some sibling hits the minimum size.
pub open spec fn avail_size(s: Seq<u32>, idx: int) -> int {
    (FULL_SIZE as int) - s[idx] - (s.len() - 1) * (MIN_TILING_SIZE as int)
}

/// A resize request clamped so that the resized container never drops
/// below the minimum size nor grows past its siblings' headroom.
pub open spec fn clamped_delta(s: Seq<u32>, idx: int, delta: int) -> int {
    let lo = MIN_TILING_SIZE as int - s[idx];
    let hi = avail_size(s, idx);
    if delta < lo {
        lo
    } else if delta > hi {
        hi
    } else {
        delta
    }
}

/// Headroom of the siblings of `idx` among the first `j` entries.
pub open spec fn cum_avail(s: Seq<u32>, idx: int, j: int) -> int
    decreases j,
{
    if j <= 0 {
        0
    } else if j - 1 == idx {
        cum_avail(s, idx, j - 1)
    } else {
        cum_avail(s, idx, j - 1) + s[j - 1] - MIN_TILING_SIZE as int
    }
}

/// Number of siblings of `idx` among the first `j` entries.
pub open spec fn cum_count(idx: int, j: int) -> int
    decreases j,
{
    if j <= 0 {
        0
    } else if j - 1 == idx {
        cum_count(idx, j - 1)
    } else {
        cum_count(idx, j - 1) + 1
    }
}

/// Share of a total `m` assigned to the first `c` units out of `v`, with
/// cumulative (exact-total) rounding.
pub open spec fn share(c: int, m: int, v: int) -> int {
    c * m / v
}

/// Exact new value of sibling `j` when `idx` grows by `m > 0`: the sibling
/// gives up its cumulative-rounded slice of its headroom.
pub open spec fn shrunk_sibling(s: Seq<u32>, idx: int, j: int, m: int) -> int {
    s[j] - (share(cum_avail(s, idx, j + 1), m, avail_size(s, idx)) - share(
        cum_avail(s, idx, j),
        m,
        avail_size(s, idx),
    ))
}

/// Exact new value of sibling `j` when `idx` shrinks by `m > 0`: the
/// freed amount is split equally (cumulative rounding) among siblings.
pub open spec fn grown_sibling(s: Seq<u32>, idx: int, j: int, m: int) -> int {
    s[j] + (share(cum_count(idx, j + 1), m, s.len() - 1) - share(
        cum_count(idx, j),
        m,
        s.len() - 1,
    ))
}

proof fn lemma_sum_take_succ(s: Seq<u32>, i: int)
    requires
        0 <= i < s.len(),
    ensures
        sum_sizes(s.take(i + 1)) == sum_sizes(s.take(i)) + s[i],
{
    assert(s.take(i + 1).drop_last() =~= s.take(i));
    assert(s.take(i + 1).last() == s[i]);
}

proof fn lemma_sum_take_all(s: Seq<u32>)
    ensures
        sum_sizes(s.take(s.len() as int)) == sum_sizes(s),
{
    assert(s.take(s.len() as int) =~= s);
}

/// A prefix sum never exceeds the sum of the whole group.
pub proof fn lemma_sum_take_le(s: Seq<u32>, j: int)
    requires
        0 <= j <= s.len(),
    ensures
        sum_sizes(s.take(j)) <= sum_sizes(s),
    decreases s.len() - j,
{
    if j < s.len() {
        lemma_sum_take_succ(s, j);
        lemma_sum_take_le(s, j + 1);
    } else {
        lemma_sum_take_all(s);
    }
}

/// Removing a member takes exactly its size out of the sum.
pub proof fn lemma_sum_remove(s: Seq<u32>, r: int)
    requires
        0 <= r < s.len(),
    ensures
        sum_sizes(s.remove(r)) == sum_sizes(s) - s[r],
    decreases s.len(),
{
    if r == s.len() - 1 {
        assert(s.remove(r) =~= s.drop_last());
    } else {
        assert(s.remove(r).drop_last() =~= s.drop_last().remove(r));
        lemma_sum_remove(s.drop_last(), r);
    }
}

/// Inserting a member adds exactly its size to the sum.
pub proof fn lemma_sum_insert(s: Seq<u32>, r: int, v: u32)
    requires
        0 <= r <= s.len(),
    ensures
        sum_sizes(s.insert(r, v)) == sum_sizes(s) + v,
    decreases s.len(),
{
    if r == s.len() {
        assert(s.insert(r, v).drop_last() =~= s);
    } else {
        assert(s.insert(r, v).drop_last() =~= s.drop_last().insert(r, v));
        lemma_sum_insert(s.drop_last(), r, v);
    }
}

/// A group whose members all meet the minimum sums to at least
/// `len * MIN_TILING_SIZE`.
pub proof fn lemma_sum_min_bound(s: Seq<u32>)
    requires
        forall|i: int| 0 <= i < s.len() ==> (MIN_TILING_SIZE as int) <= #[trigger] s[i],
    ensures
        sum_sizes(s) >= s.len() * (MIN_TILING_SIZE as int),
    decreases s.len(),
{
    if s.len() > 0 {
        lemma_sum_min_bound(s.drop_last());
    }
}

/// The sum dominates any single member plus the minimum for the rest.
pub proof fn lemma_sum_elem_bound(s: Seq<u32>, k: int)
    requires
        forall|i: int| 0 <= i < s.len() ==> (MIN_TILING_SIZE as int) <= #[trigger] s[i],
        0 <= k < s.len(),
    ensures
        sum_sizes(s) >= s[k] + (s.len() - 1) * (MIN_TILING_SIZE as int),
    decreases s.len(),
{
    if k == s.len() - 1 {
        lemma_sum_min_bound(s.drop_last());
    } else {
        lemma_sum_elem_bound(s.drop_last(), k);
    }
}

/// In a well-formed group the member count never exceeds
/// `FULL_SIZE / MIN_TILING_SIZE`.
pub proof fn lemma_group_len_bound(s: Seq<u32>)
    requires
        group_wf(s),
    ensures
        s.len() * (MIN_TILING_SIZE as int) <= FULL_SIZE as int || s.len() == 0,
{
    if s.len() > 0 {
        lemma_sum_min_bound(s);
    }
}

/// Cumulative sibling headroom is non-negative.
proof fn lemma_cum_avail_nonneg(s: Seq<u32>, idx: int, j: int)
    requires
        forall|i: int| 0 <= i < s.len() ==> (MIN_TILING_SIZE as int) <= #[trigger] s[i],
        j <= s.len(),
    ensures
        0 <= cum_avail(s, idx, j),
    decreases j,
{
    if j > 0 {
        lemma_cum_avail_nonneg(s, idx, j - 1);
    }
}

/// Cumulative sibling headroom grows with `j`.
proof fn lemma_cum_avail_mono(s: Seq<u32>, idx: int, j: int, k: int)
    requires
        forall|i: int| 0 <= i < s.len() ==> (MIN_TILING_SIZE as int) <= #[trigger] s[i],
        0 <= j <= k <= s.len(),
    ensures
        0 <= cum_avail(s, idx, j) <= cum_avail(s, idx, k),
    decreases k - j,
{
    lemma_cum_avail_nonneg(s, idx, j);
    if j < k {
        lemma_cum_avail_mono(s, idx, j + 1, k);
    }
}

/// Over the whole group the cumulative sibling headroom is exactly the
/// available size.
proof fn lemma_cum_avail_total(s: Seq<u32>, idx: int, j: int)
    requires
        0 <= idx < s.len(),
        0 <= j <= s.len(),
    ensures
        cum_avail(s, idx, j) == sum_sizes(s.take(j)) - j * (MIN_TILING_SIZE as int) - (if idx < j {
            s[idx] - MIN_TILING_SIZE as int
        } else {
            0
        }),
    decreases j,
{
    if j > 0 {
        lemma_cum_avail_total(s, idx, j - 1);
        lemma_sum_take_succ(s, j - 1);
    }
}

proof fn lemma_cum_count_total(idx: int, j: int)
    requires
        0 <= j,
        0 <= idx,
    ensures
        cum_count(idx, j) == if idx < j {
            j - 1
        } else {
            j
        },
        cum_count(idx, j) >= 0,
    decreases j,
{
    if j > 0 {
        lemma_cum_count_total(idx, j - 1);
    }
}

/// A share never shrinks when its numerator grows.
proof fn lemma_share_mono(c: int, a: int, m: int, v: int)
    requires
        0 < v,
        0 <= c,
        0 <= a,
        0 <= m,
    ensures
        share(c, m, v) <= share(c + a, m, v),
{
    assert(c * m <= (c + a) * m) by (nonlinear_arith)
        requires
            0 <= c,
            0 <= a,
            0 <= m,
    ;
    lemma_div_is_ordered(c * m, (c + a) * m, v);
}

/// Shifting the numerator of a rounded-down share by `a` whole units moves
/// the share up by at most `a` and never down.
proof fn lemma_share_shift(c: int, a: int, m: int, v: int)
    requires
        0 < v,
        0 <= c,
        0 <= a,
        0 <= m <= v,
    ensures
        share(c, m, v) <= share(c + a, m, v),
        share(c + a, m, v) <= share(c, m, v) + a,
{
    lemma_share_mono(c, a, m, v);
    assert((c + a) * m == c * m + a * m) by (nonlinear_arith);
    assert(a * m <= a * v) by (nonlinear_arith)
        requires
            0 <= a,
            m <= v,
    ;
    lemma_div_is_ordered(c * m + a * m, c * m + a * v, v);
    lemma_hoist_over_denominator(c * m, a, v as nat);
}

/// A full numerator takes the whole total: `share(v, m, v) == m`.
proof fn lemma_share_full(m: int, v: int)
    requires
        0 < v,
        0 <= m,
    ensures
        share(v, m, v) == m,
{
    lemma_hoist_over_denominator(0, m, v as nat);
    assert(v * m == 0 + m * v) by (nonlinear_arith);
    assert(0int / v == 0) by (nonlinear_arith)
        requires
            0 < v,
    ;
}

/// Nothing of a total is assigned to an empty numerator.
proof fn lemma_share_zero(m: int, v: int)
    requires
        0 < v,
    ensures
        share(0, m, v) == 0,
{
    assert(0 * m == 0) by (nonlinear_arith);
    assert(0int / v == 0) by (nonlinear_arith)
        requires
            0 < v,
    ;
}

/// A share never exceeds the total being distributed.
proof fn lemma_share_le_total(c: int, m: int, v: int)
    requires
        0 < v,
        0 <= c <= v,
        0 <= m,
    ensures
        0 <= share(c, m, v) <= m,
{
    assert(0 <= c * m) by (nonlinear_arith)
        requires
            0 <= c,
            0 <= m,
    ;
    lemma_div_is_ordered(0, c * m, v);
    assert(c * m <= v * m) by (nonlinear_arith)
        requires
            c <= v,
            0 <= m,
    ;
    lemma_div_is_ordered(c * m, v * m, v);
    lemma_share_full(m, v);
}

/// Exact value of entry `j` after a removed member's size `m` has been
/// distributed equally (cumulative rounding) over the `k` remaining
/// entries.
pub open spec fn redistributed(s: Seq<u32>, j: int, m: int) -> int {
    s[j] + (share(j + 1, m, s.len() as int) - share(j, m, s.len() as int))
}

/// Give a removed member's size `m` back to the group in equal parts,
/// with cumulative rounding: the group grows by exactly `m`.
pub fn distribute_size(sizes: &mut Vec<u32>, m: u32)
    requires
        forall|i: int|
            0 <= i < old(sizes)@.len() ==> (MIN_TILING_SIZE as int) <= #[trigger] old(
                sizes,
            )@[i] <= FULL_SIZE as int,
        1 <= old(sizes)@.len() <= 100,
        m <= FULL_SIZE,
    ensures
        final(sizes)@.len() == old(sizes)@.len(),
        sum_sizes(final(sizes)@) == sum_sizes(old(sizes)@) + m,
        forall|j: int|
            0 <= j < old(sizes)@.len() ==> final(sizes)@[j] == redistributed(old(sizes)@, j, m as int),
        forall|j: int|
            0 <= j < old(sizes)@.len() ==> old(sizes)@[j] <= #[trigger] final(sizes)@[j]
                <= old(sizes)@[j] + m,
{
    let ghost s0 = sizes@;
    let n = sizes.len();
    let k = n as u32;
    proof {
        lemma_share_zero(m as int, k as int);
        lemma_sum_take_all(s0);
    }
    let mut applied: u32 = 0;
    let mut j: usize = 0;
    while j < n
        invariant
            n == sizes@.len() == s0.len(),
            1 <= n <= 100,
            j <= n,
            k == n,
            m <= FULL_SIZE,
            forall|i: int|
                0 <= i < s0.len() ==> (MIN_TILING_SIZE as int) <= #[trigger] s0[i]
                    <= FULL_SIZE as int,
            applied as int == share(j as int, m as int, k as int),
            forall|j2: int| 0 <= j2 < j ==> sizes@[j2] == redistributed(s0, j2, m as int),
            forall|j2: int|
                0 <= j2 < j ==> s0[j2] <= #[trigger] sizes@[j2] <= s0[j2] + m,
            forall|j2: int| j <= j2 < n ==> sizes@[j2] == s0[j2],
            sum_sizes(sizes@.take(j as int)) == sum_sizes(s0.take(j as int)) + applied,
        decreases n - j,
    {
        let c: u32 = sizes[j];
        proof {
            lemma_sum_take_succ(s0, j as int);
            lemma_share_mono(j as int, 1, m as int, k as int);
            lemma_share_le_total(j as int + 1, m as int, k as int);
            assert(((j + 1) as int) * (m as int) <= 100000000int) by (nonlinear_arith)
                requires
                    0 <= j < n <= 10000,
                    0 <= m <= 10000,
            ;
        }
        let wide: u64 = (((j + 1) as u32) as u64) * (m as u64) / (k as u64);
        let t: u32 = wide as u32;
        let give: u32 = t - applied;
        let ghost pre = sizes@;
        sizes[j] = c + give;
        applied = t;
        proof {
            assert(sizes@.take(j as int) =~= pre.take(j as int));
            lemma_sum_take_succ(sizes@, j as int);
        }
        j = j + 1;
    }
    proof {
        lemma_share_full(m as int, k as int);
        lemma_sum_take_all(s0);
        lemma_sum_take_all(sizes@);
    }
}

/// Take an equal (cumulative-rounded) share of `m` back from each member
/// of the group: the exact inverse of [`distribute_size`], provided every
/// member keeps at least the minimum size. Returns false, changing
/// nothing, when some member cannot give its share back.
pub fn undistribute_size(sizes: &mut Vec<u32>, m: u32) -> (ok: bool)
    requires
        1 <= old(sizes)@.len() <= 100,
        m <= FULL_SIZE,
        forall|i: int| 0 <= i < old(sizes)@.len() ==> #[trigger] old(sizes)@[i] <= 2 * FULL_SIZE,
    ensures
        final(sizes)@.len() == old(sizes)@.len(),
        ok == forall|j: int|
            0 <= j < old(sizes)@.len() ==> (MIN_TILING_SIZE as int) + (share(
                j + 1,
                m as int,
                old(sizes)@.len() as int,
            ) - share(j, m as int, old(sizes)@.len() as int)) <= #[trigger] old(sizes)@[j],
        !ok ==> final(sizes)@ == old(sizes)@,
        ok ==> forall|j: int|
            0 <= j < old(sizes)@.len() ==> (#[trigger] final(sizes)@[j]) + (share(
                j + 1,
                m as int,
                old(sizes)@.len() as int,
            ) - share(j, m as int, old(sizes)@.len() as int)) == old(sizes)@[j],
        ok ==> sum_sizes(final(sizes)@) == sum_sizes(old(sizes)@) - m,
        ok ==> forall|j: int|
            0 <= j < old(sizes)@.len() ==> (MIN_TILING_SIZE as int) <= #[trigger] final(sizes)@[j],
{
    let ghost s0 = sizes@;
    let n = sizes.len();
    let k = n as u32;
    // First pass: check that every member can give its share back.
    let mut applied: u32 = 0;
    let mut j: usize = 0;
    let mut ok: bool = true;
    while j < n
        invariant
            n == sizes@.len() == s0.len(),
            sizes@ == s0,
            1 <= n <= 100,
            j <= n,
            k == n,
            m <= FULL_SIZE,
            forall|i: int| 0 <= i < s0.len() ==> #[trigger] s0[i] <= 2 * FULL_SIZE,
            applied as int == share(j as int, m as int, k as int),
            ok == forall|j2: int|
                0 <= j2 < j ==> (MIN_TILING_SIZE as int) + (share(j2 + 1, m as int, n as int)
                    - share(j2, m as int, n as int)) <= #[trigger] s0[j2],
        decreases n - j,
    {
        proof {
            if j == 0 {
                lemma_share_zero(m as int, k as int);
            }
            lemma_share_mono(j as int, 1, m as int, k as int);
            lemma_share_le_total(j as int + 1, m as int, k as int);
            assert(((j + 1) as int) * (m as int) <= 100000000int) by (nonlinear_arith)
                requires
                    0 <= j < n <= 10000,
                    0 <= m <= 10000,
            ;
        }
        let wide: u64 = (((j + 1) as u32) as u64) * (m as u64) / (k as u64);
        let t: u32 = wide as u32;
        let give: u32 = t - applied;
        if sizes[j] < MIN_TILING_SIZE + give {
            ok = false;
        }
        applied = t;
        j = j + 1;
    }
    if !ok {
        assert(sizes@ =~= s0);
        return false;
    }
    // Second pass: take the shares back.
    proof {
        lemma_share_zero(m as int, k as int);
        lemma_sum_take_all(s0);
    }
    let mut applied2: u32 = 0;
    let mut j2: usize = 0;
    while j2 < n
        invariant
            n == sizes@.len() == s0.len(),
            1 <= n <= 100,
            j2 <= n,
            k == n,
            m <= FULL_SIZE,
            forall|i: int| 0 <= i < s0.len() ==> #[trigger] s0[i] <= 2 * FULL_SIZE,
            forall|i: int|
                0 <= i < n ==> (MIN_TILING_SIZE as int) + (share(i + 1, m as int, n as int) - share(
                    i,
                    m as int,
                    n as int,
                )) <= #[trigger] s0[i],
            applied2 as int == share(j2 as int, m as int, k as int),
            forall|i: int|
                0 <= i < j2 ==> (#[trigger] sizes@[i]) + (share(i + 1, m as int, n as int) - share(
                    i,
                    m as int,
                    n as int,
                )) == s0[i],
            forall|i: int| 0 <= i < j2 ==> (MIN_TILING_SIZE as int) <= #[trigger] sizes@[i],
            forall|i: int| j2 <= i < n ==> sizes@[i] == s0[i],
            sum_sizes(sizes@.take(j2 as int)) == sum_sizes(s0.take(j2 as int)) - applied2,
        decreases n - j2,
    {
        let c: u32 = sizes[j2];
        proof {
            lemma_sum_take_succ(s0, j2 as int);
            lemma_share_mono(j2 as int, 1, m as int, k as int);
            lemma_share_le_total(j2 as int + 1, m as int, k as int);
            assert(((j2 + 1) as int) * (m as int) <= 100000000int) by (nonlinear_arith)
                requires
                    0 <= j2 < n <= 10000,
                    0 <= m <= 10000,
            ;
        }
        let wide: u64 = (((j2 + 1) as u32) as u64) * (m as u64) / (k as u64);
        let t: u32 = wide as u32;
        let give: u32 = t - applied2;
        let ghost pre = sizes@;
        sizes[j2] = c - give;
        applied2 = t;
        proof {
            assert(sizes@.take(j2 as int) =~= pre.take(j2 as int));
            lemma_sum_take_succ(sizes@, j2 as int);
        }
        j2 = j2 + 1;
    }
    proof {
        lemma_share_full(m as int, k as int);
        lemma_sum_take_all(s0);
        lemma_sum_take_all(sizes@);
    }
    true
}

/// Giving a size back and then taking it away again restores every
/// member of the group exactly.
pub proof fn lemma_redistribute_round_trip(s: Seq<u32>, grown: Seq<u32>, back: Seq<u32>, m: int)
    requires
        s.len() == grown.len() == back.len(),
        forall|j: int| 0 <= j < s.len() ==> #[trigger] grown[j] == redistributed(s, j, m),
        forall|j: int|
            0 <= j < s.len() ==> (#[trigger] back[j]) + (share(j + 1, m, s.len() as int) - share(
                j,
                m,
                s.len() as int,
            )) == grown[j],
    ensures
        back =~= s,
{
}

/// The size an existing member keeps when a newcomer joins a group of
/// `n`: scaled by `n/(n+1)`, clamped at the minimum size.
pub open spec fn scaled_insert_size(s: Seq<u32>, j: int) -> int {
    let v = (s[j] as int) * (s.len() as int) / (s.len() as int + 1);
    if v < MIN_TILING_SIZE as int {
        MIN_TILING_SIZE as int
    } else {
        v
    }
}

/// The whole group scaled for a newcomer.
pub open spec fn scaled_insert_seq(s: Seq<u32>) -> Seq<u32> {
    Seq::new(s.len(), |j: int| scaled_insert_size(s, j) as u32)
}

/// Make room for a newcomer in a tiling sibling group: scale each of the
/// `n` existing sizes by `n/(n+1)` (clamped at the minimum size) and
/// return the remainder as the newcomer's size, so the group of `n+1`
/// sums to exactly `FULL_SIZE` again. When clamping would leave the
/// newcomer below the minimum, the whole group is split equally instead.
pub fn insert_tiling_size(sizes: &mut Vec<u32>) -> (newcomer: u32)
    requires
        group_wf(old(sizes)@),
        old(sizes)@.len() < 100,
    ensures
        final(sizes)@.len() == old(sizes)@.len(),
        group_wf(final(sizes)@.push(newcomer)),
        old(sizes)@.len() == 0 ==> newcomer == FULL_SIZE,
        old(sizes)@.len() > 0 && (FULL_SIZE as int) - sum_sizes(scaled_insert_seq(old(sizes)@))
            >= MIN_TILING_SIZE as int ==> final(sizes)@ == scaled_insert_seq(old(sizes)@)
            && newcomer as int == (FULL_SIZE as int) - sum_sizes(scaled_insert_seq(old(sizes)@)),
        old(sizes)@.len() > 0 && (FULL_SIZE as int) - sum_sizes(scaled_insert_seq(old(sizes)@))
            < MIN_TILING_SIZE as int ==> {
            let total = old(sizes)@.len() as int + 1;
            &&& (forall|j: int|
                1 <= j < final(sizes)@.len() ==> #[trigger] final(sizes)@[j] == (
                FULL_SIZE as int) / total)
            &&& final(sizes)@[0] == (FULL_SIZE as int) / total + (FULL_SIZE as int) % total
            &&& newcomer as int == (FULL_SIZE as int) / total
        },
{
    let ghost s0 = sizes@;
    let n = sizes.len();
    if n == 0 {
        proof {
            let fin = sizes@.push(FULL_SIZE);
            assert(fin.drop_last() =~= sizes@);
            assert(fin.last() == FULL_SIZE);
            assert(sum_sizes(sizes@) == 0);
            assert(sum_sizes(fin) == FULL_SIZE as int);
            assert forall|i: int| 0 <= i < fin.len() implies (MIN_TILING_SIZE as int)
                <= #[trigger] fin[i] by {
                assert(fin[0] == FULL_SIZE);
            }
        }
        return FULL_SIZE;
    }
    proof {
        lemma_sum_take_all(s0);
        lemma_sum_min_bound(s0);
    }
    let scale_num: u64 = n as u64;
    let scale_den: u64 = (n + 1) as u64;
    let mut scaled_sum: u32 = 0;
    let mut j: usize = 0;
    while j < n
        invariant
            n == sizes@.len() == s0.len(),
            1 <= n < 100,
            j <= n,
            scale_num == n as u64,
            scale_den == n as u64 + 1,
            group_wf(s0),
            forall|j2: int|
                0 <= j2 < j ==> (MIN_TILING_SIZE as int) <= #[trigger] sizes@[j2] <= s0[j2],
            forall|j2: int| 0 <= j2 < j ==> #[trigger] sizes@[j2] == scaled_insert_size(s0, j2),
            forall|j2: int| j <= j2 < n ==> sizes@[j2] == s0[j2],
            scaled_sum as int == sum_sizes(sizes@.take(j as int)),
            scaled_sum as int <= sum_sizes(s0.take(j as int)),
        decreases n - j,
    {
        let c: u32 = sizes[j];
        proof {
            lemma_sum_take_succ(s0, j as int);
            lemma_sum_elem_bound(s0, j as int);
            lemma_sum_take_all(s0);
            assert((c as int) * (scale_num as int) <= 1000000int) by (nonlinear_arith)
                requires
                    0 <= c <= 10000,
                    0 <= scale_num <= 100,
            ;
            assert(0 <= (c as int) * (scale_num as int) / (scale_den as int) <= c as int)
                by (nonlinear_arith)
                requires
                    0 <= c,
                    0 < scale_den,
                    scale_num < scale_den,
                    (c as int) * (scale_num as int) <= 1000000int,
            ;
        }
        let wide: u64 = (c as u64) * scale_num / scale_den;
        let t: u32 = wide as u32;
        let v: u32 = if t < MIN_TILING_SIZE {
            MIN_TILING_SIZE
        } else {
            t
        };
        proof {
            lemma_sum_take_le(s0, j as int);
        }
        let ghost pre = sizes@;
        sizes[j] = v;
        scaled_sum = scaled_sum + v;
        proof {
            assert(sizes@.take(j as int) =~= pre.take(j as int));
            lemma_sum_take_succ(sizes@, j as int);
        }
        j = j + 1;
    }
    proof {
        lemma_sum_take_all(s0);
        lemma_sum_take_all(sizes@);
    }
    proof {
        assert(sizes@ =~= scaled_insert_seq(s0));
    }
    let rest: u32 = FULL_SIZE - scaled_sum;
    if rest >= MIN_TILING_SIZE {
        proof {
            let fin = sizes@.push(rest);
            assert(fin.drop_last() =~= sizes@);
            assert(sum_sizes(fin) == sum_sizes(sizes@) + rest);
        }
        return rest;
    }
    // Fallback: split the axis equally over the n + 1 members.
    let total: u32 = (n + 1) as u32;
    let base: u32 = FULL_SIZE / total;
    let rem: u32 = FULL_SIZE % total;
    let mut j2: usize = 0;
    while j2 < n
        invariant
            n == sizes@.len(),
            1 <= n < 100,
            j2 <= n,
            total == n as u32 + 1,
            base == FULL_SIZE / total,
            rem == FULL_SIZE % total,
            forall|j3: int| 0 <= j3 < j2 ==> #[trigger] sizes@[j3] == base + (if j3 == 0 {
                rem
            } else {
                0u32
            }),
            sum_sizes(sizes@.take(j2 as int)) == j2 * base + (if j2 > 0 {
                rem as int
            } else {
                0
            }),
        decreases n - j2,
    {
        let ghost pre = sizes@;
        if j2 == 0 {
            sizes[j2] = base + rem;
        } else {
            sizes[j2] = base;
        }
        proof {
            assert(sizes@.take(j2 as int) =~= pre.take(j2 as int));
            lemma_sum_take_succ(sizes@, j2 as int);
            assert((j2 + 1) * base == j2 * base + base) by (nonlinear_arith);
        }
        j2 = j2 + 1;
    }
    proof {
        lemma_sum_take_all(sizes@);
        let fin = sizes@.push(base);
        assert(fin.drop_last() =~= sizes@);
        assert(n * base + base == (n + 1) * base) by (nonlinear_arith);
        assert((total as int) * (base as int) + rem == FULL_SIZE as int) by {
            vstd::arithmetic::div_mod::lemma_fundamental_div_mod(
                FULL_SIZE as int,
                total as int,
            );
        }
        assert(100 <= base) by (nonlinear_arith)
            requires
                base == (FULL_SIZE as int) / (total as int),
                0 < total <= 100,
        ;
    }
    base
}

/// A group well-formed with a value appended is well-formed with the
/// same value inserted anywhere.
pub proof fn lemma_group_wf_insert_of_push(s: Seq<u32>, r: int, v: u32)
    requires
        group_wf(s.push(v)),
        0 <= r <= s.len(),
    ensures
        group_wf(s.insert(r, v)),
{
    assert(s.push(v).drop_last() =~= s);
    lemma_sum_insert(s, r, v);
    assert forall|q: int|
        0 <= q < s.insert(r, v).len() implies (MIN_TILING_SIZE as int) <= #[trigger] s.insert(
        r,
        v,
    )[q] by {
        if q < r {
            assert(s.insert(r, v)[q] == s[q] == s.push(v)[q]);
        } else if q == r {
            assert(s.insert(r, v)[q] == v == s.push(v)[s.len() as int]);
        } else {
            assert(s.insert(r, v)[q] == s[q - 1] == s.push(v)[q - 1]);
        }
    }
}

/// Resize one member of a tiling sibling group by `delta` fixed-point
/// units (positive grows it, negative shrinks it).
///
/// The delta is clamped into `[MIN_TILING_SIZE - size, avail]`; growth is
/// taken from each sibling in proportion to its headroom above the
/// minimum, shrinkage is handed back in equal parts, both with cumulative
/// rounding so the group still sums to exactly `FULL_SIZE`. Resizing an
/// only child, or by a delta that clamps to zero, changes nothing.
pub fn resize_tiling_sizes(sizes: &mut Vec<u32>, idx: usize, delta: i64)
    requires
        group_wf(old(sizes)@),
        idx < old(sizes)@.len(),
    ensures
        final(sizes)@.len() == old(sizes)@.len(),
        group_wf(final(sizes)@),
        old(sizes)@.len() == 1 ==> final(sizes)@ == old(sizes)@,
        old(sizes)@.len() > 1 ==> {
            let m = clamped_delta(old(sizes)@, idx as int, delta as int);
            &&& final(sizes)@[idx as int] == old(sizes)@[idx as int] + m
            &&& m == 0 ==> final(sizes)@ == old(sizes)@
            &&& m > 0 ==> forall|j: int|
                0 <= j < old(sizes)@.len() && j != idx ==> final(sizes)@[j] == shrunk_sibling(
                    old(sizes)@,
                    idx as int,
                    j,
                    m,
                )
            &&& m < 0 ==> forall|j: int|
                0 <= j < old(sizes)@.len() && j != idx ==> final(sizes)@[j] == grown_sibling(
                    old(sizes)@,
                    idx as int,
                    j,
                    -m,
                )
        },
{
    let ghost s0 = sizes@;
    let n = sizes.len();
    if n == 1 {
        return ;
    }
    proof {
        lemma_sum_elem_bound(s0, idx as int);
        lemma_sum_min_bound(s0);
        lemma_sum_take_all(s0);
    }
    // Siblings' headroom above the minimum; non-negative by the group
    // invariant.
    let avail: u32 = FULL_SIZE - sizes[idx] - ((n - 1) as u32) * MIN_TILING_SIZE;
    let cur: u32 = sizes[idx];
    // Clamp the request into what the group can absorb.
    let lo: i64 = (MIN_TILING_SIZE as i64) - (cur as i64);
    let hi: i64 = avail as i64;
    let d: i64 = if delta < lo {
        lo
    } else if delta > hi {
        hi
    } else {
        delta
    };
    assert(d as int == clamped_delta(s0, idx as int, delta as int));
    if d == 0 {
        assert(sizes@ =~= s0);
        return ;
    }
    if d > 0 {
        let m: u32 = d as u32;
        let v: u32 = avail;
        sizes[idx] = cur + m;
        proof {
            lemma_share_zero(m as int, v as int);
        }
        let mut cum: u32 = 0;
        let mut applied: u32 = 0;
        let mut j: usize = 0;
        while j < n
            invariant
                n == sizes@.len() == s0.len(),
                idx < n,
                1 < n,
                j <= n,
                group_wf(s0),
                0 < m <= v,
                v as int == avail_size(s0, idx as int),
                sizes@[idx as int] == s0[idx as int] + m,
                cum as int == cum_avail(s0, idx as int, j as int),
                applied as int == share(cum as int, m as int, v as int),
                forall|j2: int|
                    0 <= j2 < j && j2 != idx ==> sizes@[j2] == shrunk_sibling(
                        s0,
                        idx as int,
                        j2,
                        m as int,
                    ),
                forall|j2: int|
                    0 <= j2 < j && j2 != idx ==> (MIN_TILING_SIZE as int) <= #[trigger] sizes@[j2],
                forall|j2: int| j <= j2 < n && j2 != idx ==> sizes@[j2] == s0[j2],
                sum_sizes(sizes@.take(j as int)) == sum_sizes(s0.take(j as int)) + (if idx < j {
                    m as int
                } else {
                    0
                }) - applied,
            decreases n - j,
        {
            proof {
                lemma_sum_take_succ(s0, j as int);
            }
            if j != idx {
                let c: u32 = sizes[j];
                let a: u32 = c - MIN_TILING_SIZE;
                proof {
                    lemma_cum_avail_mono(s0, idx as int, j as int + 1, n as int);
                    lemma_cum_avail_total(s0, idx as int, n as int);
                    lemma_sum_take_all(s0);
                    lemma_share_shift(cum as int, a as int, m as int, v as int);
                    lemma_share_le_total(
                        cum_avail(s0, idx as int, j as int + 1),
                        m as int,
                        v as int,
                    );
                }
                cum = cum + a;
                proof {
                    assert((cum as int) * (m as int) <= 100000000int) by (nonlinear_arith)
                        requires
                            0 <= cum <= 10000,
                            0 <= m <= 10000,
                    ;
                }
                let wide: u64 = (cum as u64) * (m as u64) / (v as u64);
                let t: u32 = wide as u32;
                let take: u32 = t - applied;
                let ghost pre = sizes@;
                sizes[j] = c - take;
                applied = t;
                proof {
                    assert(sizes@.take(j as int) =~= pre.take(j as int));
                    lemma_sum_take_succ(sizes@, j as int);
                }
            } else {
                proof {
                    lemma_sum_take_succ(sizes@, j as int);
                }
            }
            j = j + 1;
        }
        proof {
            lemma_cum_avail_total(s0, idx as int, n as int);
            lemma_sum_take_all(s0);
            lemma_share_full(m as int, v as int);
            lemma_sum_take_all(sizes@);
        }
    } else {
        let m: u32 = (-d) as u32;
        let k: u32 = (n - 1) as u32;
        sizes[idx] = cur - m;
        proof {
            lemma_share_zero(m as int, k as int);
        }
        let mut cnt: u32 = 0;
        let mut applied: u32 = 0;
        let mut j: usize = 0;
        while j < n
            invariant
                n == sizes@.len() == s0.len(),
                idx < n,
                1 < n,
                j <= n,
                group_wf(s0),
                0 < m,
                m as int <= s0[idx as int] - MIN_TILING_SIZE,
                k == n - 1,
                sizes@[idx as int] == s0[idx as int] - m,
                cnt as int == cum_count(idx as int, j as int),
                applied as int == share(cnt as int, m as int, k as int),
                forall|j2: int|
                    0 <= j2 < j && j2 != idx ==> sizes@[j2] == grown_sibling(
                        s0,
                        idx as int,
                        j2,
                        m as int,
                    ),
                forall|j2: int|
                    0 <= j2 < j && j2 != idx ==> (MIN_TILING_SIZE as int) <= #[trigger] sizes@[j2],
                forall|j2: int| j <= j2 < n && j2 != idx ==> sizes@[j2] == s0[j2],
                sum_sizes(sizes@.take(j as int)) == sum_sizes(s0.take(j as int)) - (if idx < j {
                    m as int
                } else {
                    0
                }) + applied,
            decreases n - j,
        {
            proof {
                lemma_sum_take_succ(s0, j as int);
            }
            if j != idx {
                let c: u32 = sizes[j];
                proof {
                    lemma_cum_count_total(idx as int, j as int);
                    lemma_cum_count_total(idx as int, j as int + 1);
                    lemma_share_mono(cnt as int, 1, m as int, k as int);
                    lemma_share_le_total(cnt as int + 1, m as int, k as int);
                    lemma_sum_elem_bound(s0, j as int);
                    lemma_sum_elem_bound(s0, idx as int);
                    lemma_sum_take_all(s0);
                }
                cnt = cnt + 1;
                proof {
                    assert((cnt as int) * (m as int) <= 100000000int) by (nonlinear_arith)
                        requires
                            0 <= cnt <= 10000,
                            0 <= m <= 10000,
                    ;
                }
                let wide: u64 = (cnt as u64) * (m as u64) / (k as u64);
                let t: u32 = wide as u32;
                let give: u32 = t - applied;
                let ghost pre = sizes@;
                sizes[j] = c + give;
                applied = t;
                proof {
                    assert(sizes@.take(j as int) =~= pre.take(j as int));
                    lemma_sum_take_succ(sizes@, j as int);
                }
            } else {
                proof {
                    lemma_sum_take_succ(sizes@, j as int);
                }
            }
            j = j + 1;
        }
        proof {
            lemma_cum_count_total(idx as int, n as int);
            lemma_sum_take_all(s0);
            lemma_share_full(m as int, k as int);
            lemma_sum_take_all(sizes@);
        }
    }
}

} // verus!
