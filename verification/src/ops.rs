//! Mutations of a workspace's sibling group: reading and writing the
//! tiling sizes, resizing a member, and moving windows in and out of the
//! tiling layout while the group invariant (sizes sum to `FULL_SIZE`,
//! none below the minimum) is preserved exactly.

use vstd::prelude::*;

use crate::sizing::{clamped_delta, group_wf, resize_tiling_sizes};
use crate::tree::{
    ids_of, is_tiling, tile_id, tile_size, tile_state_count, tile_wf, tiles_state_count, tiles_wf,
    tiling_sizes, Tile, WindowState,
};

verus! {

/// Whether two tiles agree on everything but their tiling size.
pub open spec fn same_but_size(a: Tile, b: Tile) -> bool {
    match (a, b) {
        (Tile::Split(x), Tile::Split(y)) => y == (crate::tree::Split {
            tiling_size: y.tiling_size,
            ..x
        }),
        (Tile::Window(x), Tile::Window(y)) => y == (crate::tree::Window {
            tiling_size: y.tiling_size,
            ..x
        }),
        _ => false,
    }
}

pub proof fn lemma_tiling_sizes_take_succ(ts: Seq<Tile>, i: int)
    requires
        0 <= i < ts.len(),
    ensures
        tiling_sizes(ts.take(i + 1)) == tiling_sizes(ts.take(i)) + (if is_tiling(ts[i]) {
            seq![tile_size(ts[i])]
        } else {
            Seq::<u32>::empty()
        }),
    decreases i,
{
    assert(ts.take(i + 1).drop_last() =~= ts.take(i));
    assert(ts.take(i + 1).last() == ts[i]);
}

pub proof fn lemma_tiling_sizes_take_all(ts: Seq<Tile>)
    ensures
        tiling_sizes(ts.take(ts.len() as int)) == tiling_sizes(ts),
{
    assert(ts.take(ts.len() as int) =~= ts);
}

pub proof fn lemma_ids_take_succ(ts: Seq<Tile>, i: int)
    requires
        0 <= i < ts.len(),
    ensures
        ids_of(ts.take(i + 1)) == ids_of(ts.take(i)) + seq![tile_id(ts[i])],
{
    assert(ts.take(i + 1).drop_last() =~= ts.take(i));
    assert(ts.take(i + 1).last() == ts[i]);
}

/// Two groups whose members agree on everything but their tiling sizes
/// have the same ids, the same per-state window counts, and the same
/// well-formedness.
pub proof fn lemma_same_but_size_group(a: Seq<Tile>, b: Seq<Tile>, st: WindowState)
    requires
        a.len() == b.len(),
        forall|j: int| 0 <= j < a.len() ==> same_but_size(#[trigger] a[j], b[j]),
    ensures
        ids_of(b) == ids_of(a),
        tiles_state_count(b, st) == tiles_state_count(a, st),
        tiles_wf(a) ==> tiles_wf(b),
    decreases a.len(),
{
    if a.len() > 0 {
        lemma_same_but_size_group(a.drop_last(), b.drop_last(), st);
        assert(same_but_size(a.last(), b.last()));
        assert(tile_state_count(b.last(), st) == tile_state_count(a.last(), st));
        if tiles_wf(a) {
            assert forall|j: int| 0 <= j < b.len() implies tile_wf(#[trigger] b[j]) by {
                assert(same_but_size(a[j], b[j]));
                assert(tile_wf(a[j]));
            }
        }
        assert forall|j: int|
            0 <= j < a.drop_last().len() implies same_but_size(
            #[trigger] a.drop_last()[j],
            b.drop_last()[j],
        ) by {
            assert(same_but_size(a[j], b[j]));
        }
    }
}

/// Updating one member in place keeps the group's ids when the new
/// member keeps the id.
pub proof fn lemma_ids_of_update(ts: Seq<Tile>, i: int, x: Tile)
    requires
        0 <= i < ts.len(),
        tile_id(x) == tile_id(ts[i]),
    ensures
        ids_of(ts.update(i, x)) == ids_of(ts),
    decreases ts.len(),
{
    if ts.len() > 0 {
        if i == ts.len() - 1 {
            assert(ts.update(i, x).drop_last() =~= ts.drop_last());
        } else {
            assert(ts.update(i, x).drop_last() =~= ts.drop_last().update(i, x));
            lemma_ids_of_update(ts.drop_last(), i, x);
        }
    }
}

/// Updating one member shifts the per-state window count by the
/// difference between the old and the new member.
pub proof fn lemma_state_count_update(ts: Seq<Tile>, i: int, x: Tile, st: WindowState)
    requires
        0 <= i < ts.len(),
    ensures
        tiles_state_count(ts.update(i, x), st) == tiles_state_count(ts, st) - tile_state_count(
            ts[i],
            st,
        ) + tile_state_count(x, st),
    decreases ts.len(),
{
    if ts.len() > 0 {
        if i == ts.len() - 1 {
            assert(ts.update(i, x).drop_last() =~= ts.drop_last());
        } else {
            assert(ts.update(i, x).drop_last() =~= ts.drop_last().update(i, x));
            lemma_state_count_update(ts.drop_last(), i, x, st);
        }
    }
}

/// The per-state window count of a group grown by one member.
pub proof fn lemma_state_count_push(ts: Seq<Tile>, x: Tile, st: WindowState)
    ensures
        tiles_state_count(ts.push(x), st) == tiles_state_count(ts, st) + tile_state_count(x, st),
{
    assert(ts.push(x).drop_last() =~= ts);
}

/// The ids of a group grown by one member.
pub proof fn lemma_ids_of_push(ts: Seq<Tile>, x: Tile)
    ensures
        ids_of(ts.push(x)) == ids_of(ts) + seq![tile_id(x)],
{
    assert(ts.push(x).drop_last() =~= ts);
}

/// The tiling sizes of a group grown by one member.
pub proof fn lemma_tiling_sizes_push(ts: Seq<Tile>, x: Tile)
    ensures
        tiling_sizes(ts.push(x)) == tiling_sizes(ts) + (if is_tiling(x) {
            seq![tile_size(x)]
        } else {
            Seq::<u32>::empty()
        }),
{
    assert(ts.push(x).drop_last() =~= ts);
}

/// How many tiling members stand before position `i` in the group.
pub fn tiling_rank(children: &Vec<Tile>, i: usize) -> (r: usize)
    requires
        i <= children@.len(),
    ensures
        r == tiling_sizes(children@.take(i as int)).len(),
        r <= i,
{
    let mut r: usize = 0;
    let mut j: usize = 0;
    while j < i
        invariant
            j <= i <= children@.len(),
            r == tiling_sizes(children@.take(j as int)).len(),
            r <= j,
        decreases i - j,
    {
        proof {
            lemma_tiling_sizes_take_succ(children@, j as int);
        }
        if children[j].is_tiling() {
            r = r + 1;
        }
        j = j + 1;
    }
    r
}

/// The tiling sizes of the group, in order.
pub fn extract_tiling_sizes(children: &Vec<Tile>) -> (v: Vec<u32>)
    ensures
        v@ == tiling_sizes(children@),
{
    let mut v: Vec<u32> = Vec::new();
    let mut j: usize = 0;
    let n = children.len();
    while j < n
        invariant
            j <= n == children@.len(),
            v@ == tiling_sizes(children@.take(j as int)),
        decreases n - j,
    {
        proof {
            lemma_tiling_sizes_take_succ(children@, j as int);
        }
        if children[j].is_tiling() {
            let s = children[j].tiling_size();
            v.push(s);
            proof {
                assert(v@ =~= tiling_sizes(children@.take(j as int + 1)));
            }
        }
        j = j + 1;
    }
    proof {
        lemma_tiling_sizes_take_all(children@);
    }
    v
}

/// Write a new set of tiling sizes back over the group, in order; every
/// member keeps everything but its size.
pub fn write_tiling_sizes(children: &mut Vec<Tile>, sizes: &Vec<u32>)
    requires
        sizes@.len() == tiling_sizes(old(children)@).len(),
    ensures
        final(children)@.len() == old(children)@.len(),
        tiling_sizes(final(children)@) == sizes@,
        forall|j: int|
            0 <= j < old(children)@.len() ==> same_but_size(
                #[trigger] old(children)@[j],
                final(children)@[j],
            ),
        forall|j: int|
            0 <= j < old(children)@.len() && !is_tiling(old(children)@[j]) ==> final(children)@[j]
                == old(children)@[j],
        forall|j: int|
            0 <= j < old(children)@.len() ==> is_tiling(#[trigger] final(children)@[j])
                == is_tiling(old(children)@[j]),
{
    let ghost c0 = children@;
    let n = children.len();
    let slen = sizes.len();
    let mut c: usize = 0;
    let mut j: usize = 0;
    while j < n
        invariant
            j <= n == children@.len() == c0.len(),
            slen == sizes@.len(),
            sizes@.len() == tiling_sizes(c0).len(),
            c == tiling_sizes(c0.take(j as int)).len(),
            c <= sizes@.len(),
            tiling_sizes(children@.take(j as int)) == sizes@.take(c as int),
            forall|j2: int| 0 <= j2 < j ==> same_but_size(#[trigger] c0[j2], children@[j2]),
            forall|j2: int|
                0 <= j2 < j && !is_tiling(c0[j2]) ==> children@[j2] == c0[j2],
            forall|j2: int|
                0 <= j2 < j ==> is_tiling(#[trigger] children@[j2]) == is_tiling(c0[j2]),
            forall|j2: int| j <= j2 < n ==> children@[j2] == c0[j2],
        decreases n - j,
    {
        let ghost pre = children@;
        let tiling = children[j].is_tiling();
        proof {
            lemma_tiling_sizes_take_succ(c0, j as int);
            lemma_tiling_sizes_take_succ(children@, j as int);
            lemma_tiling_sizes_take_le_len(c0, j as int);
            if tiling {
                lemma_tiling_rank_in_range(c0, j as int);
            }
        }
        if tiling {
            let v = sizes[c];
            let tref = &mut children[j];
            match tref {
                Tile::Split(s) => {
                    s.tiling_size = v;
                },
                Tile::Window(w) => {
                    w.tiling_size = v;
                },
            }
            proof {
                assert(c < slen);
            }
            c = c + 1;
            proof {
                assert(children@.take(j as int) =~= pre.take(j as int));
                lemma_tiling_sizes_take_succ(children@, j as int);
                assert(tiling_sizes(children@.take(j as int + 1)) =~= sizes@.take(c as int));
            }
        } else {
            proof {
                assert(tiling_sizes(children@.take(j as int + 1)) =~= sizes@.take(c as int));
            }
        }
        j = j + 1;
    }
    proof {
        lemma_tiling_sizes_take_all(children@);
        lemma_tiling_sizes_take_all(c0);
        assert(sizes@.take(c as int) =~= sizes@);
    }
}

/// The number of tiling members up to `j` never exceeds the total.
pub proof fn lemma_tiling_sizes_take_le_len(ts: Seq<Tile>, j: int)
    requires
        0 <= j <= ts.len(),
    ensures
        tiling_sizes(ts.take(j)).len() <= tiling_sizes(ts).len(),
    decreases ts.len() - j,
{
    if j < ts.len() {
        lemma_tiling_sizes_take_succ(ts, j);
        lemma_tiling_sizes_take_le_len(ts, j + 1);
    } else {
        lemma_tiling_sizes_take_all(ts);
    }
}

/// What resizing one member of a sibling group leaves behind: the same
/// members (everything but sizes unchanged), the group still sharing
/// the axis exactly, an only tiling member untouched, and the resized
/// member's new size fixed by the clamped delta.
pub open spec fn resize_group_post(c0: Seq<Tile>, c1: Seq<Tile>, idx: int, delta: int) -> bool {
    &&& c1.len() == c0.len()
    &&& tiles_wf(c1)
    &&& group_wf(tiling_sizes(c1))
    &&& ids_of(c1) == ids_of(c0)
    &&& tiles_state_count(c1, WindowState::Fullscreen) == tiles_state_count(
        c0,
        WindowState::Fullscreen,
    )
    &&& forall|j: int| 0 <= j < c0.len() ==> same_but_size(#[trigger] c0[j], c1[j])
    &&& forall|j: int| 0 <= j < c0.len() && !is_tiling(#[trigger] c0[j]) ==> c1[j] == c0[j]
    &&& (tiling_sizes(c0).len() == 1 ==> c1 == c0)
    &&& ({
        let sizes = tiling_sizes(c0);
        let r = tiling_sizes(c0.take(idx)).len() as int;
        tile_size(c1[idx]) == sizes[r] + (if sizes.len() == 1 {
            0
        } else {
            clamped_delta(sizes, r, delta)
        })
    })
    &&& ({
        // Spec 4.D's distribution rule, exactly: growth is taken from
        // each sibling in proportion to its headroom, shrinkage handed
        // back in equal parts, both with cumulative rounding.
        let s0 = tiling_sizes(c0);
        let s1 = tiling_sizes(c1);
        let r = tiling_sizes(c0.take(idx)).len() as int;
        &&& s1.len() == s0.len()
        &&& (s0.len() > 1 ==> {
            let m = clamped_delta(s0, r, delta);
            &&& (m == 0 ==> s1 == s0)
            &&& (m > 0 ==> forall|q: int|
                0 <= q < s0.len() && q != r ==> s1[q] == crate::sizing::shrunk_sibling(s0, r, q, m))
            &&& (m < 0 ==> forall|q: int|
                0 <= q < s0.len() && q != r ==> s1[q] == crate::sizing::grown_sibling(s0, r, q, -m))
        })
    })
}

/// Resize the tiling member at position `idx` of a sibling group by
/// `delta` fixed-point units, clamped to the group's headroom; the other
/// members absorb the change and the group still shares the axis exactly.
/// A member that is the group's only tiling member is left unchanged.
pub fn resize_tile_in_group(children: &mut Vec<Tile>, idx: usize, delta: i64)
    requires
        tiles_wf(old(children)@),
        group_wf(tiling_sizes(old(children)@)),
        idx < old(children)@.len(),
        is_tiling(old(children)@[idx as int]),
    ensures
        final(children)@.len() == old(children)@.len(),
        tiles_wf(final(children)@),
        group_wf(tiling_sizes(final(children)@)),
        ids_of(final(children)@) == ids_of(old(children)@),
        tiles_state_count(final(children)@, WindowState::Fullscreen) == tiles_state_count(
            old(children)@,
            WindowState::Fullscreen,
        ),
        forall|j: int|
            0 <= j < old(children)@.len() ==> same_but_size(
                #[trigger] old(children)@[j],
                final(children)@[j],
            ),
        tiling_sizes(old(children)@).len() == 1 ==> final(children)@ == old(children)@,
        ({
            let sizes = tiling_sizes(old(children)@);
            let r = tiling_sizes(old(children)@.take(idx as int)).len() as int;
            tile_size(final(children)@[idx as int]) == sizes[r] + (if sizes.len() == 1 {
                0
            } else {
                clamped_delta(sizes, r, delta as int)
            })
        }),
        resize_group_post(old(children)@, final(children)@, idx as int, delta as int),
{
    let ghost c0 = children@;
    let r = tiling_rank(children, idx);
    let mut sizes = extract_tiling_sizes(children);
    proof {
        lemma_tiling_rank_in_range(c0, idx as int);
    }
    if sizes.len() == 1 {
        proof {
            let szs = tiling_sizes(c0);
            assert(tile_size(c0[idx as int]) == szs[r as int]) by {
                lemma_tiling_size_at_rank(c0, idx as int);
            }
            assert(children@ =~= c0);
            lemma_same_but_size_refl_group(c0);
        }
        return ;
    }
    resize_tiling_sizes(&mut sizes, r, delta);
    proof {
        lemma_tiling_size_at_rank(c0, idx as int);
    }
    write_tiling_sizes(children, &sizes);
    proof {
        lemma_same_but_size_group(c0, children@, WindowState::Fullscreen);
        lemma_size_at_rank_after_write(c0, children@, idx as int);
    }
}

/// Every tile agrees with itself up to size.
pub proof fn lemma_same_but_size_refl_group(ts: Seq<Tile>)
    ensures
        forall|j: int| 0 <= j < ts.len() ==> same_but_size(#[trigger] ts[j], ts[j]),
{
    assert forall|j: int| 0 <= j < ts.len() implies same_but_size(#[trigger] ts[j], ts[j]) by {
        match ts[j] {
            Tile::Split(s) => {
                assert(same_but_size(ts[j], ts[j]));
            },
            Tile::Window(w) => {
                assert(same_but_size(ts[j], ts[j]));
            },
        }
    }
}

/// A tiling member's rank lies within the group's size list.
pub proof fn lemma_tiling_rank_in_range(ts: Seq<Tile>, i: int)
    requires
        0 <= i < ts.len(),
        is_tiling(ts[i]),
    ensures
        tiling_sizes(ts.take(i)).len() < tiling_sizes(ts).len(),
    decreases ts.len() - i,
{
    lemma_tiling_sizes_take_succ(ts, i);
    lemma_tiling_sizes_take_le_len(ts, i + 1);
}

/// The size of a tiling member at position `i` is the entry of the size
/// list at the member's rank.
pub proof fn lemma_tiling_size_at_rank(ts: Seq<Tile>, i: int)
    requires
        0 <= i < ts.len(),
        is_tiling(ts[i]),
    ensures
        tiling_sizes(ts)[tiling_sizes(ts.take(i)).len() as int] == tile_size(ts[i]),
    decreases ts.len(),
{
    lemma_tiling_rank_in_range(ts, i);
    lemma_tiling_sizes_take_succ(ts, i);
    lemma_tiling_sizes_prefix_extends(ts, i + 1);
    assert(tiling_sizes(ts.take(i + 1)).last() == tile_size(ts[i]));
}

/// The sizes of a prefix stand unchanged at the front of the sizes of
/// the whole group.
proof fn lemma_tiling_sizes_prefix_extends(ts: Seq<Tile>, j: int)
    requires
        0 <= j <= ts.len(),
    ensures
        tiling_sizes(ts.take(j)).len() <= tiling_sizes(ts).len(),
        forall|k: int|
            0 <= k < tiling_sizes(ts.take(j)).len() ==> #[trigger] tiling_sizes(ts.take(j))[k]
                == tiling_sizes(ts)[k],
    decreases ts.len() - j,
{
    if j < ts.len() {
        lemma_tiling_sizes_take_succ(ts, j);
        lemma_tiling_sizes_prefix_extends(ts, j + 1);
        assert forall|k: int|
            0 <= k < tiling_sizes(ts.take(j)).len() implies #[trigger] tiling_sizes(ts.take(j))[k]
            == tiling_sizes(ts)[k] by {
            assert(tiling_sizes(ts.take(j))[k] == tiling_sizes(ts.take(j + 1))[k]);
        }
    } else {
        lemma_tiling_sizes_take_all(ts);
    }
}

/// After writing sizes back, the member at `i` carries the written entry
/// at its rank.
proof fn lemma_size_at_rank_after_write(a: Seq<Tile>, b: Seq<Tile>, i: int)
    requires
        a.len() == b.len(),
        0 <= i < a.len(),
        is_tiling(a[i]),
        forall|j: int| 0 <= j < a.len() ==> is_tiling(#[trigger] b[j]) == is_tiling(a[j]),
    ensures
        tile_size(b[i]) == tiling_sizes(b)[tiling_sizes(a.take(i)).len() as int],
    decreases a.len(),
{
    lemma_tiling_size_at_rank(b, i);
    lemma_tiling_ranks_agree(a, b, i);
}

/// Replacing a tiling member by a non-tiling one removes its entry, at
/// its rank, from the group's size list.
pub proof fn lemma_tiling_sizes_detach(ts: Seq<Tile>, i: int, x: Tile)
    requires
        0 <= i < ts.len(),
        is_tiling(ts[i]),
        !is_tiling(x),
    ensures
        tiling_sizes(ts.update(i, x)) == tiling_sizes(ts).remove(
            tiling_sizes(ts.take(i)).len() as int,
        ),
    decreases ts.len(),
{
    lemma_tiling_rank_in_range(ts, i);
    let r = tiling_sizes(ts.take(i)).len() as int;
    if i == ts.len() - 1 {
        assert(ts.update(i, x).drop_last() =~= ts.drop_last());
        assert(ts.take(i) =~= ts.drop_last());
        assert(tiling_sizes(ts) == tiling_sizes(ts.drop_last()) + seq![tile_size(ts[i])]);
        assert(tiling_sizes(ts).remove(r) =~= tiling_sizes(ts.drop_last()));
        assert(tiling_sizes(ts.update(i, x)) == tiling_sizes(ts.drop_last()));
    } else {
        assert(ts.update(i, x).drop_last() =~= ts.drop_last().update(i, x));
        assert(ts.drop_last().take(i) =~= ts.take(i));
        lemma_tiling_sizes_detach(ts.drop_last(), i, x);
        lemma_tiling_rank_in_range(ts.drop_last(), i);
        assert(ts.update(i, x).last() == ts.last());
        assert(tiling_sizes(ts).remove(r) =~= tiling_sizes(ts.drop_last()).remove(r) + (
        if is_tiling(ts.last()) {
            seq![tile_size(ts.last())]
        } else {
            Seq::<u32>::empty()
        }));
    }
}

/// Replacing a non-tiling member by a tiling one inserts its size, at
/// its rank, into the group's size list.
pub proof fn lemma_tiling_sizes_attach(ts: Seq<Tile>, i: int, x: Tile)
    requires
        0 <= i < ts.len(),
        !is_tiling(ts[i]),
        is_tiling(x),
    ensures
        tiling_sizes(ts.update(i, x)) == tiling_sizes(ts).insert(
            tiling_sizes(ts.take(i)).len() as int,
            tile_size(x),
        ),
    decreases ts.len(),
{
    lemma_tiling_sizes_take_le_len(ts, i);
    let r = tiling_sizes(ts.take(i)).len() as int;
    if i == ts.len() - 1 {
        assert(ts.update(i, x).drop_last() =~= ts.drop_last());
        assert(ts.take(i) =~= ts.drop_last());
        assert(tiling_sizes(ts) == tiling_sizes(ts.drop_last()) + Seq::<u32>::empty());
        assert(tiling_sizes(ts) =~= tiling_sizes(ts.drop_last()));
        assert(tiling_sizes(ts).insert(r, tile_size(x)) =~= tiling_sizes(ts.drop_last()).push(
            tile_size(x),
        ));
        assert(tiling_sizes(ts.update(i, x)) =~= tiling_sizes(ts.drop_last()).push(tile_size(x)));
    } else {
        assert(ts.update(i, x).drop_last() =~= ts.drop_last().update(i, x));
        assert(ts.drop_last().take(i) =~= ts.take(i));
        lemma_tiling_sizes_attach(ts.drop_last(), i, x);
        lemma_tiling_sizes_take_le_len(ts.drop_last(), i);
        assert(ts.update(i, x).last() == ts.last());
        assert(tiling_sizes(ts).insert(r, tile_size(x)) =~= tiling_sizes(ts.drop_last()).insert(
            r,
            tile_size(x),
        ) + (if is_tiling(ts.last()) {
            seq![tile_size(ts.last())]
        } else {
            Seq::<u32>::empty()
        }));
    }
}

/// Replacing a non-tiling member by a non-tiling one leaves the group's
/// size list unchanged.
pub proof fn lemma_tiling_sizes_update_nontiling(ts: Seq<Tile>, i: int, x: Tile)
    requires
        0 <= i < ts.len(),
        !is_tiling(ts[i]),
        !is_tiling(x),
    ensures
        tiling_sizes(ts.update(i, x)) == tiling_sizes(ts),
    decreases ts.len(),
{
    if i == ts.len() - 1 {
        assert(ts.update(i, x).drop_last() =~= ts.drop_last());
    } else {
        assert(ts.update(i, x).drop_last() =~= ts.drop_last().update(i, x));
        lemma_tiling_sizes_update_nontiling(ts.drop_last(), i, x);
        assert(ts.update(i, x).last() == ts.last());
    }
}

/// Removing a non-tiling member leaves the group's size list unchanged.
pub proof fn lemma_tiling_sizes_remove_nontiling(ts: Seq<Tile>, i: int)
    requires
        0 <= i < ts.len(),
        !is_tiling(ts[i]),
    ensures
        tiling_sizes(ts.remove(i)) == tiling_sizes(ts),
    decreases ts.len(),
{
    if i == ts.len() - 1 {
        assert(ts.remove(i) =~= ts.drop_last());
        assert(tiling_sizes(ts) =~= tiling_sizes(ts.drop_last()));
    } else {
        assert(ts.remove(i).drop_last() =~= ts.drop_last().remove(i));
        lemma_tiling_sizes_remove_nontiling(ts.drop_last(), i);
        assert(ts.remove(i).last() == ts.last());
    }
}

/// The id list is as long as the group.
pub proof fn lemma_ids_of_len(ts: Seq<Tile>)
    ensures
        ids_of(ts).len() == ts.len(),
    decreases ts.len(),
{
    if ts.len() > 0 {
        lemma_ids_of_len(ts.drop_last());
    }
}

/// The ids of a group with one member removed.
pub proof fn lemma_ids_of_remove(ts: Seq<Tile>, i: int)
    requires
        0 <= i < ts.len(),
    ensures
        ids_of(ts.remove(i)) == ids_of(ts).remove(i),
    decreases ts.len(),
{
    lemma_ids_of_len(ts);
    lemma_ids_of_len(ts.drop_last());
    if i == ts.len() - 1 {
        assert(ts.remove(i) =~= ts.drop_last());
        assert(ids_of(ts).remove(i) =~= ids_of(ts.drop_last()));
    } else {
        assert(ts.remove(i).drop_last() =~= ts.drop_last().remove(i));
        lemma_ids_of_remove(ts.drop_last(), i);
        assert(ts.remove(i).last() == ts.last());
        assert(ids_of(ts).remove(i) =~= ids_of(ts.drop_last()).remove(i) + seq![
            tile_id(ts.last()),
        ]);
    }
}

/// Each position of the id list carries the id of the member there.
pub proof fn lemma_ids_of_index(ts: Seq<Tile>, i: int)
    requires
        0 <= i < ts.len(),
    ensures
        ids_of(ts).len() == ts.len(),
        ids_of(ts)[i] == tile_id(ts[i]),
    decreases ts.len(),
{
    lemma_ids_of_len(ts);
    lemma_ids_of_len(ts.drop_last());
    if i < ts.len() - 1 {
        lemma_ids_of_index(ts.drop_last(), i);
    }
}

/// The per-state window count of a group with one member removed.
pub proof fn lemma_state_count_remove(ts: Seq<Tile>, i: int, st: WindowState)
    requires
        0 <= i < ts.len(),
    ensures
        tiles_state_count(ts.remove(i), st) == tiles_state_count(ts, st) - tile_state_count(
            ts[i],
            st,
        ),
    decreases ts.len(),
{
    if i == ts.len() - 1 {
        assert(ts.remove(i) =~= ts.drop_last());
    } else {
        assert(ts.remove(i).drop_last() =~= ts.drop_last().remove(i));
        lemma_state_count_remove(ts.drop_last(), i, st);
        assert(ts.remove(i).last() == ts.last());
    }
}

/// Per-state window counts are never negative.
pub proof fn lemma_state_count_nonneg(t: Tile, st: WindowState)
    ensures
        tile_state_count(t, st) >= 0,
    decreases t,
{
    match t {
        Tile::Split(s) => {
            lemma_tiles_state_count_nonneg(s.children@, st);
        },
        Tile::Window(_) => {},
    }
}

/// Per-state window counts of a group are never negative, and dominate
/// the count of any one member.
pub proof fn lemma_tiles_state_count_nonneg(ts: Seq<Tile>, st: WindowState)
    ensures
        tiles_state_count(ts, st) >= 0,
        forall|i: int|
            0 <= i < ts.len() ==> tiles_state_count(ts, st) >= tile_state_count(
                #[trigger] ts[i],
                st,
            ),
    decreases ts,
{
    if ts.len() > 0 {
        lemma_tiles_state_count_nonneg(ts.drop_last(), st);
        lemma_state_count_nonneg(ts.last(), st);
        assert forall|i: int|
            0 <= i < ts.len() implies tiles_state_count(ts, st) >= tile_state_count(
            #[trigger] ts[i],
            st,
        ) by {
            if i < ts.len() - 1 {
                assert(ts.drop_last()[i] == ts[i]);
            }
        }
    }
}

/// A well-formed tiling tile holds no window in a non-tiling state:
/// split containers keep only tiling children.
pub proof fn lemma_state_count_tiling_zero(t: Tile, st: WindowState)
    requires
        tile_wf(t),
        is_tiling(t),
        st != WindowState::Tiling,
    ensures
        tile_state_count(t, st) == 0,
    decreases t,
{
    match t {
        Tile::Split(s) => {
            lemma_tiles_state_count_tiling_zero(s.children@, st);
        },
        Tile::Window(_) => {},
    }
}

/// A group of well-formed, all-tiling tiles holds no window in a
/// non-tiling state.
pub proof fn lemma_tiles_state_count_tiling_zero(ts: Seq<Tile>, st: WindowState)
    requires
        forall|i: int| 0 <= i < ts.len() ==> tile_wf(#[trigger] ts[i]),
        forall|i: int| 0 <= i < ts.len() ==> is_tiling(#[trigger] ts[i]),
        st != WindowState::Tiling,
    ensures
        tiles_state_count(ts, st) == 0,
    decreases ts,
{
    if ts.len() > 0 {
        lemma_tiles_state_count_tiling_zero(ts.drop_last(), st);
        lemma_state_count_tiling_zero(ts.last(), st);
    }
}

/// In a well-formed group, a state other than `Tiling` is counted only
/// on direct child windows; with none of them in that state the count is
/// zero.
pub proof fn lemma_state_count_zero_when_no_direct(ts: Seq<Tile>, st: WindowState)
    requires
        forall|i: int| 0 <= i < ts.len() ==> tile_wf(#[trigger] ts[i]),
        st != WindowState::Tiling,
        forall|i: int|
            0 <= i < ts.len() ==> (#[trigger] ts[i] is Window ==> ts[i]->Window_0.state != st),
    ensures
        tiles_state_count(ts, st) == 0,
    decreases ts,
{
    if ts.len() > 0 {
        assert(ts.last() == ts[ts.len() - 1]);
        assert forall|i: int| 0 <= i < ts.drop_last().len() implies tile_wf(
            #[trigger] ts.drop_last()[i],
        ) && (ts.drop_last()[i] is Window ==> ts.drop_last()[i]->Window_0.state != st) by {
            assert(ts.drop_last()[i] == ts[i]);
        }
        lemma_state_count_zero_when_no_direct(ts.drop_last(), st);
        assert(tiles_state_count(ts.drop_last(), st) == 0);
        match ts.last() {
            Tile::Split(_) => {
                lemma_state_count_tiling_zero(ts.last(), st);
            },
            Tile::Window(w) => {
                assert(ts[ts.len() - 1] is Window);
                assert(ts[ts.len() - 1]->Window_0.state != st);
                assert(w.state != st);
            },
        }
        assert(tile_state_count(ts.last(), st) == 0);
        assert(tiles_state_count(ts, st) == tiles_state_count(ts.drop_last(), st)
            + tile_state_count(ts.last(), st));
    } else {
        assert(tiles_state_count(ts, st) == 0);
    }
}

/// Groups with the same tiling pattern give every position the same rank.
pub proof fn lemma_tiling_ranks_agree(a: Seq<Tile>, b: Seq<Tile>, i: int)
    requires
        a.len() == b.len(),
        0 <= i <= a.len(),
        forall|j: int| 0 <= j < a.len() ==> is_tiling(#[trigger] b[j]) == is_tiling(a[j]),
    ensures
        tiling_sizes(a.take(i)).len() == tiling_sizes(b.take(i)).len(),
    decreases i,
{
    if i > 0 {
        lemma_tiling_sizes_take_succ(a, i - 1);
        lemma_tiling_sizes_take_succ(b, i - 1);
        lemma_tiling_ranks_agree(a, b, i - 1);
    }
}

} // verus!
