//! Workspace operations: looking windows up, managing new windows into
//! the tiling layout, the window state machine (tiling / floating /
//! fullscreen / minimized, with at most one fullscreen window per
//! workspace), detaching windows, and workspace geometry.

use vstd::prelude::*;

use crate::geometry::{length_to_px, rect_wf, Rect, MAX_SCALE_PCT};
use crate::ops::{
    extract_tiling_sizes, lemma_ids_of_push, lemma_ids_of_update, lemma_same_but_size_group,
    lemma_state_count_push, lemma_state_count_update,
    lemma_tiling_rank_in_range, lemma_tiling_sizes_attach, lemma_tiling_sizes_detach,
    lemma_tiling_sizes_push, lemma_tiling_sizes_update_nontiling, lemma_tiling_size_at_rank,
    same_but_size, tiling_rank, write_tiling_sizes,
};
use crate::sizing::{
    group_wf, insert_tiling_size, lemma_group_len_bound, lemma_sum_elem_bound, lemma_sum_insert,
    lemma_sum_remove, distribute_size, undistribute_size,
};
use crate::tree::{
    ids_of, tile_state_count, tiles_state_count, tiles_wf, tiling_sizes, workspace_wf,
    DisplayState, GapsConfig, Monitor, PrevTiling, Tile, TilingDirection, Window, WindowState,
    WmError, Workspace, WorkspaceConfig,
};
use crate::{FULL_SIZE, MIN_TILING_SIZE};

verus! {

/// User-friendly representation of a workspace, for IPC and debug
/// logging. The platform shell decorates it with serialization and
/// stable UUIDs; here it holds plain values only.
#[derive(Debug)]
pub struct WorkspaceDto {
    pub id: u64,
    pub name: String,
    pub display_name: Option<String>,
    pub children: Vec<u64>,
    pub child_focus_order: Vec<u64>,
    pub has_focus: bool,
    pub is_displayed: bool,
    pub width: i32,
    pub height: i32,
    pub x: i32,
    pub y: i32,
    pub tiling_direction: TilingDirection,
}

/// Whether a tile is the window with the given id.
pub open spec fn is_window_with(t: Tile, id: u64) -> bool {
    match t {
        Tile::Window(w) => w.id == id,
        Tile::Split(_) => false,
    }
}

/// The window held by a tile (meaningful when the tile is a window).
pub open spec fn win_of(t: Tile) -> Window
    recommends
        t is Window,
{
    t->Window_0
}

/// The id of the first direct child window in the given state, if any.
pub open spec fn first_window_in_state(ts: Seq<Tile>, j: int, st: WindowState) -> Option<u64>
    decreases ts.len() - j,
{
    if j < 0 || j >= ts.len() {
        None
    } else if ts[j] is Window && win_of(ts[j]).state == st {
        Some(win_of(ts[j]).id)
    } else {
        first_window_in_state(ts, j + 1, st)
    }
}

/// Whether every member of a tiling group can give back its equal
/// (cumulative-rounded) share of a stashed size `m` without dropping
/// below the minimum; then restoring a stashed slot is exact.
pub open spec fn stash_restorable(sizes: Seq<u32>, m: int) -> bool {
    forall|q: int|
        0 <= q < sizes.len() ==> (MIN_TILING_SIZE as int) + (crate::sizing::share(
            q + 1,
            m,
            sizes.len() as int,
        ) - crate::sizing::share(q, m, sizes.len() as int)) <= #[trigger] sizes[q]
}

/// An integer clamped into the `i32` range.
pub open spec fn clamp_to_i32(x: int) -> int {
    if x > 2147483647 {
        2147483647
    } else if x < -2147483648 {
        -2147483648
    } else {
        x
    }
}

/// What a successful state change leaves behind: a well-formed
/// workspace with the same identity, children ids and focus order, in
/// which some direct child window with the id carries the new state.
pub open spec fn update_state_post(w0: Workspace, w1: Workspace, id: u64, st: WindowState) -> bool {
    &&& workspace_wf(w1)
    &&& w1.id == w0.id
    &&& w1.config == w0.config
    &&& w1.focus_order@ == w0.focus_order@
    &&& w1.children@.len() == w0.children@.len()
    &&& ids_of(w1.children@) == ids_of(w0.children@)
    &&& exists|j: int|
        0 <= j < w1.children@.len() && is_window_with(#[trigger] w1.children@[j], id) && win_of(
            w1.children@[j],
        ).state == st
}

impl Workspace {
    /// A fresh, empty workspace.
    pub fn new(
        id: u64,
        config: WorkspaceConfig,
        gaps_config: GapsConfig,
        tiling_direction: TilingDirection,
    ) -> (w: Workspace)
        ensures
            w.id == id,
            w.config == config,
            w.gaps_config == gaps_config,
            w.tiling_direction == tiling_direction,
            w.children@ == Seq::<Tile>::empty(),
            w.focus_order@ == Seq::<u64>::empty(),
            workspace_wf(w),
    {
        let w = Workspace {
            id,
            config,
            gaps_config,
            tiling_direction,
            children: Vec::new(),
            focus_order: Vec::new(),
        };
        proof {
            assert(ids_of(w.children@) =~= Seq::<u64>::empty());
            assert(w.focus_order@.to_multiset() =~= ids_of(w.children@).to_multiset());
            assert(tiling_sizes(w.children@) =~= Seq::<u32>::empty());
        }
        w
    }

    /// Position of the direct child window with the given id.
    pub fn find_window(&self, id: u64) -> (r: Option<usize>)
        ensures
            match r {
                Some(i) => i < self.children@.len() && is_window_with(self.children@[i as int], id),
                None => forall|j: int|
                    0 <= j < self.children@.len() ==> !is_window_with(#[trigger] self.children@[j], id),
            },
    {
        let n = self.children.len();
        let mut j: usize = 0;
        while j < n
            invariant
                j <= n == self.children@.len(),
                forall|k: int| 0 <= k < j ==> !is_window_with(#[trigger] self.children@[k], id),
            decreases n - j,
        {
            match &self.children[j] {
                Tile::Window(w) => {
                    if w.id == id {
                        return Some(j);
                    }
                },
                Tile::Split(_) => {},
            }
            j = j + 1;
        }
        None
    }

    /// The fullscreen window among the direct children, if any (the
    /// workspace invariant allows at most one).
    pub fn get_fullscreen_window(&self) -> (r: Option<u64>)
        ensures
            r == first_window_in_state(self.children@, 0, WindowState::Fullscreen),
    {
        let n = self.children.len();
        let mut j: usize = 0;
        while j < n
            invariant
                j <= n == self.children@.len(),
                first_window_in_state(self.children@, 0, WindowState::Fullscreen)
                    == first_window_in_state(self.children@, j as int, WindowState::Fullscreen),
            decreases n - j,
        {
            match &self.children[j] {
                Tile::Window(w) => {
                    if matches!(w.state, WindowState::Fullscreen) {
                        return Some(w.id);
                    }
                },
                Tile::Split(_) => {},
            }
            j = j + 1;
        }
        None
    }

    /// Underlying config for the workspace.
    pub fn config(&self) -> (c: &WorkspaceConfig)
        ensures
            c == &self.config,
    {
        &self.config
    }

    /// Update the underlying config for the workspace.
    pub fn set_config(&mut self, config: WorkspaceConfig)
        ensures
            *final(self) == (Workspace { config, ..*old(self) }),
    {
        self.config = config;
    }

    /// Update the gaps configuration.
    pub fn set_gaps_config(&mut self, gaps_config: GapsConfig)
        ensures
            *final(self) == (Workspace { gaps_config, ..*old(self) }),
    {
        self.gaps_config = gaps_config;
    }

    /// Whether this workspace is the one its monitor currently displays:
    /// the front of the monitor's focus order names it.
    pub fn is_displayed(&self, monitor: &Monitor) -> (r: bool)
        ensures
            r == (monitor.focus_order@.len() > 0 && monitor.focus_order@[0] == self.id),
    {
        if monitor.focus_order.len() > 0 {
            monitor.focus_order[0] == self.id
        } else {
            false
        }
    }

    /// The pixel region of this workspace: the monitor's working area
    /// (its bounds shifted by the working-area delta) inset by the
    /// configured outer gap, which is DPI-scaled when so configured.
    pub fn to_rect(&self, monitor: &Monitor) -> (r: Rect)
        requires
            rect_wf(monitor.rect),
            rect_wf(monitor.working_rect),
            monitor.scale_pct <= MAX_SCALE_PCT,
            crate::geometry::length_wf(self.gaps_config.outer_gap.left),
            crate::geometry::length_wf(self.gaps_config.outer_gap.top),
            crate::geometry::length_wf(self.gaps_config.outer_gap.right),
            crate::geometry::length_wf(self.gaps_config.outer_gap.bottom),
        ensures
            ({
                let width = monitor.rect.right - monitor.rect.left;
                let height = monitor.rect.bottom - monitor.rect.top;
                let sf = if self.gaps_config.scale_with_dpi {
                    monitor.scale_pct as int
                } else {
                    100int
                };
                &&& r.left == monitor.working_rect.left + length_to_px(
                    self.gaps_config.outer_gap.left,
                    width,
                    sf,
                )
                &&& r.top == monitor.working_rect.top + length_to_px(
                    self.gaps_config.outer_gap.top,
                    height,
                    sf,
                )
                &&& r.right == monitor.working_rect.right - length_to_px(
                    self.gaps_config.outer_gap.right,
                    width,
                    sf,
                )
                &&& r.bottom == monitor.working_rect.bottom - length_to_px(
                    self.gaps_config.outer_gap.bottom,
                    height,
                    sf,
                )
            }),
    {
        let monitor_width = monitor.rect.width();
        let monitor_height = monitor.rect.height();
        let scale_pct: u32 = if self.gaps_config.scale_with_dpi {
            monitor.scale_pct
        } else {
            100
        };
        let working_delta = monitor.working_rect.delta(&monitor.rect);
        let gap = &self.gaps_config.outer_gap;
        let left = monitor.rect.left + working_delta.left.to_px(monitor_width, scale_pct)
            + gap.left.to_px(monitor_width, scale_pct);
        let top = monitor.rect.top + working_delta.top.to_px(monitor_height, scale_pct)
            + gap.top.to_px(monitor_height, scale_pct);
        let right = monitor.rect.right + working_delta.right.to_px(monitor_width, scale_pct)
            - gap.right.to_px(monitor_width, scale_pct);
        let bottom = monitor.rect.bottom + working_delta.bottom.to_px(monitor_height, scale_pct)
            - gap.bottom.to_px(monitor_height, scale_pct);
        Rect::from_ltrb(left, top, right, bottom)
    }

    /// The user-facing view of this workspace: name, geometry on its
    /// monitor, direct child ids, and focus order.
    pub fn to_dto(&self, monitor: &Monitor, has_focus: bool) -> (dto: WorkspaceDto)
        requires
            rect_wf(monitor.rect),
            rect_wf(monitor.working_rect),
            monitor.scale_pct <= MAX_SCALE_PCT,
            crate::geometry::length_wf(self.gaps_config.outer_gap.left),
            crate::geometry::length_wf(self.gaps_config.outer_gap.top),
            crate::geometry::length_wf(self.gaps_config.outer_gap.right),
            crate::geometry::length_wf(self.gaps_config.outer_gap.bottom),
        ensures
            dto.id == self.id,
            dto.name == self.config.name,
            dto.display_name == self.config.display_name,
            dto.children@ == ids_of(self.children@),
            dto.child_focus_order@ == self.focus_order@,
            dto.is_displayed == (monitor.focus_order@.len() > 0 && monitor.focus_order@[0]
                == self.id),
            dto.has_focus == has_focus,
            dto.tiling_direction == self.tiling_direction,
            ({
                let width = monitor.rect.right - monitor.rect.left;
                let height = monitor.rect.bottom - monitor.rect.top;
                let sf = if self.gaps_config.scale_with_dpi {
                    monitor.scale_pct as int
                } else {
                    100int
                };
                &&& dto.x == monitor.working_rect.left + length_to_px(
                    self.gaps_config.outer_gap.left,
                    width,
                    sf,
                )
                &&& dto.y == monitor.working_rect.top + length_to_px(
                    self.gaps_config.outer_gap.top,
                    height,
                    sf,
                )
                &&& dto.width == clamp_to_i32(
                    (monitor.working_rect.right - length_to_px(
                        self.gaps_config.outer_gap.right,
                        width,
                        sf,
                    )) - (monitor.working_rect.left + length_to_px(
                        self.gaps_config.outer_gap.left,
                        width,
                        sf,
                    )),
                )
                &&& dto.height == clamp_to_i32(
                    (monitor.working_rect.bottom - length_to_px(
                        self.gaps_config.outer_gap.bottom,
                        height,
                        sf,
                    )) - (monitor.working_rect.top + length_to_px(
                        self.gaps_config.outer_gap.top,
                        height,
                        sf,
                    )),
                )
            }),
    {
        let rect = self.to_rect(monitor);
        let mut children: Vec<u64> = Vec::new();
        let n = self.children.len();
        let mut j: usize = 0;
        while j < n
            invariant
                j <= n == self.children@.len(),
                children@ == ids_of(self.children@.take(j as int)),
            decreases n - j,
        {
            proof {
                crate::ops::lemma_ids_take_succ(self.children@, j as int);
            }
            let id = self.children[j].id();
            children.push(id);
            proof {
                assert(children@ =~= ids_of(self.children@.take(j as int + 1)));
            }
            j = j + 1;
        }
        proof {
            assert(self.children@.take(n as int) =~= self.children@);
        }
        let mut focus: Vec<u64> = Vec::new();
        let fl = self.focus_order.len();
        let mut q: usize = 0;
        while q < fl
            invariant
                q <= fl == self.focus_order@.len(),
                focus@ == self.focus_order@.take(q as int),
            decreases fl - q,
        {
            let f = self.focus_order[q];
            focus.push(f);
            proof {
                assert(focus@ =~= self.focus_order@.take(q as int + 1));
            }
            q = q + 1;
        }
        proof {
            assert(self.focus_order@.take(fl as int) =~= self.focus_order@);
        }
        let width64: i64 = rect.right as i64 - rect.left as i64;
        let height64: i64 = rect.bottom as i64 - rect.top as i64;
        let width: i32 = if width64 > 2147483647 {
            2147483647
        } else if width64 < -2147483648 {
            -2147483648
        } else {
            width64 as i32
        };
        let height: i32 = if height64 > 2147483647 {
            2147483647
        } else if height64 < -2147483648 {
            -2147483648
        } else {
            height64 as i32
        };
        WorkspaceDto {
            id: self.id,
            name: self.config.name.clone(),
            display_name: match &self.config.display_name {
                Some(s) => Some(s.clone()),
                None => None,
            },
            children,
            child_focus_order: focus,
            has_focus,
            is_displayed: self.is_displayed(monitor),
            width,
            height,
            x: rect.x(),
            y: rect.y(),
            tiling_direction: self.tiling_direction,
        }
    }

    /// Move the direct child window at `i` into the given state, keeping
    /// the tiling group's sizes sharing the axis exactly: leaving
    /// `Tiling` hands the window's size to its siblings in equal parts
    /// and stashes it; entering `Tiling` takes the stash back exactly
    /// when the siblings can still afford it, and otherwise scales the
    /// group to make room. Fails only when the tiling group is full.
    fn transition_window(&mut self, i: usize, new_state: WindowState) -> (r: Result<(), WmError>)
        requires
            workspace_wf(*old(self)),
            i < old(self).children@.len(),
            old(self).children@[i as int] is Window,
            new_state == WindowState::Fullscreen ==> tiles_state_count(
                old(self).children@,
                WindowState::Fullscreen,
            ) == 0,
        ensures
            final(self).id == old(self).id,
            final(self).config == old(self).config,
            final(self).gaps_config == old(self).gaps_config,
            final(self).tiling_direction == old(self).tiling_direction,
            final(self).focus_order@ == old(self).focus_order@,
            r is Err ==> *final(self) == *old(self) && r == Err::<(), WmError>(
                WmError::InvalidTreeState,
            ),
            r is Err ==> win_of(old(self).children@[i as int]).state != WindowState::Tiling
                && new_state == WindowState::Tiling && tiling_sizes(old(self).children@).len()
                >= 100,
            win_of(old(self).children@[i as int]).state == new_state ==> *final(self) == *old(
                self,
            ),
            ({
                let w0 = win_of(old(self).children@[i as int]);
                let szs = tiling_sizes(old(self).children@);
                (r is Ok && w0.state != WindowState::Tiling && new_state == WindowState::Tiling
                    && w0.prev_tiling is Some && MIN_TILING_SIZE <= w0.prev_tiling->0.size
                    && w0.prev_tiling->0.size <= FULL_SIZE && szs.len() >= 1 && stash_restorable(
                    szs,
                    w0.prev_tiling->0.size as int,
                )) ==> final(self).children@[i as int] is Window && win_of(
                    final(self).children@[i as int],
                ).tiling_size == w0.prev_tiling->0.size
            }),
            r is Ok ==> {
                &&& final(self).children@.len() == old(self).children@.len()
                &&& ids_of(final(self).children@) == ids_of(old(self).children@)
                &&& tiles_wf(final(self).children@)
                &&& group_wf(tiling_sizes(final(self).children@))
                &&& final(self).children@[i as int] is Window
                &&& win_of(final(self).children@[i as int]).state == new_state
                &&& win_of(final(self).children@[i as int]).id == win_of(
                    old(self).children@[i as int],
                ).id
                &&& win_of(final(self).children@[i as int]).handle == win_of(
                    old(self).children@[i as int],
                ).handle
                &&& forall|j: int|
                    0 <= j < old(self).children@.len() && j != i ==> same_but_size(
                        #[trigger] old(self).children@[j],
                        final(self).children@[j],
                    )
                &&& tiles_state_count(final(self).children@, WindowState::Fullscreen)
                    == tiles_state_count(old(self).children@, WindowState::Fullscreen)
                    - tile_state_count(old(self).children@[i as int], WindowState::Fullscreen)
                    + (if new_state == WindowState::Fullscreen {
                    1int
                } else {
                    0int
                })
            },
    {
        let ghost c0 = self.children@;
        let w: Window = match &self.children[i] {
            Tile::Window(w) => *w,
            Tile::Split(_) => {
                return Err(WmError::InvalidTreeState);
            },
        };
        let cur = w.state;
        if cur == new_state {
            proof {
                assert(*self == *old(self));
            }
            return Ok(());
        }
        let stash = if cur == WindowState::Tiling || cur == WindowState::Floating {
            cur
        } else {
            w.prev_state
        };
        if cur == WindowState::Tiling {
            // Leaving the tiling group: hand the size to the siblings.
            let rank = tiling_rank(&self.children, i);
            let mut sizes = extract_tiling_sizes(&self.children);
            proof {
                lemma_tiling_rank_in_range(c0, i as int);
                lemma_tiling_size_at_rank(c0, i as int);
                lemma_group_len_bound(sizes@);
            }
            let m: u32 = sizes[rank];
            sizes.remove(rank);
            proof {
                lemma_sum_remove(tiling_sizes(c0), rank as int);
                lemma_sum_elem_bound(tiling_sizes(c0), rank as int);
                assert forall|q: int|
                    0 <= q < sizes@.len() implies (MIN_TILING_SIZE as int) <= #[trigger] sizes@[q]
                    <= FULL_SIZE as int by {
                    let orig = if q < rank {
                        q
                    } else {
                        q + 1
                    };
                    assert(sizes@[q] == tiling_sizes(c0)[orig]);
                    lemma_sum_elem_bound(tiling_sizes(c0), orig);
                }
            }
            if sizes.len() > 0 {
                distribute_size(&mut sizes, m);
            }
            let w2 = Window {
                state: new_state,
                prev_state: stash,
                prev_tiling: Some(PrevTiling { index: rank, size: m }),
                ..w
            };
            self.children[i] = Tile::Window(w2);
            proof {
                lemma_tiling_sizes_detach(c0, i as int, Tile::Window(w2));
                lemma_ids_of_update(c0, i as int, Tile::Window(w2));
                lemma_state_count_update(c0, i as int, Tile::Window(w2), WindowState::Fullscreen);
            }
            let ghost c1 = self.children@;
            write_tiling_sizes(&mut self.children, &sizes);
            proof {
                lemma_same_but_size_group(c1, self.children@, WindowState::Fullscreen);
                assert forall|j: int|
                    0 <= j < c0.len() && j != i implies same_but_size(
                    #[trigger] c0[j],
                    self.children@[j],
                ) by {
                    assert(c1[j] == c0[j]);
                    assert(same_but_size(c1[j], self.children@[j]));
                }
                assert(same_but_size(c1[i as int], self.children@[i as int]));
                assert(self.children@[i as int] is Window);
                assert(win_of(self.children@[i as int]).state == new_state);
            }
            Ok(())
        } else if new_state == WindowState::Tiling {
            // Entering the tiling group at this position's rank.
            let rank = tiling_rank(&self.children, i);
            let mut sizes = extract_tiling_sizes(&self.children);
            if sizes.len() >= 100 {
                return Err(WmError::InvalidTreeState);
            }
            proof {
                lemma_group_len_bound(sizes@);
                if sizes@.len() > 0 {
                    assert forall|q: int|
                        0 <= q < sizes@.len() implies #[trigger] sizes@[q] <= 2
                        * FULL_SIZE by {
                        lemma_sum_elem_bound(sizes@, q);
                    }
                }
            }
            let ghost sz0 = sizes@;
            let mut newsize: u32 = 0;
            let mut restored = false;
            match w.prev_tiling {
                Some(pt) => {
                    if sizes.len() >= 1 && pt.size >= MIN_TILING_SIZE && pt.size <= FULL_SIZE {
                        if undistribute_size(&mut sizes, pt.size) {
                            newsize = pt.size;
                            restored = true;
                        }
                    }
                },
                None => {},
            }
            if !restored {
                newsize = insert_tiling_size(&mut sizes);
            }
            proof {
                crate::ops::lemma_tiling_sizes_take_le_len(c0, i as int);
                if restored {
                    lemma_sum_insert(sizes@, rank as int, newsize);
                    assert forall|q: int|
                        0 <= q < sizes@.insert(rank as int, newsize).len() implies (
                    MIN_TILING_SIZE as int) <= #[trigger] sizes@.insert(
                        rank as int,
                        newsize,
                    )[q] by {
                        if q < rank {
                            assert(sizes@.insert(rank as int, newsize)[q] == sizes@[q]);
                        } else if q == rank {
                            assert(sizes@.insert(rank as int, newsize)[q] == newsize);
                        } else {
                            assert(sizes@.insert(rank as int, newsize)[q] == sizes@[q - 1]);
                        }
                    }
                    assert(group_wf(sizes@.insert(rank as int, newsize)));
                } else {
                    crate::sizing::lemma_group_wf_insert_of_push(sizes@, rank as int, newsize);
                }
            }
            let w2 = Window {
                state: WindowState::Tiling,
                prev_state: stash,
                prev_tiling: None,
                tiling_size: newsize,
                ..w
            };
            sizes.insert(rank, newsize);
            self.children[i] = Tile::Window(w2);
            proof {
                lemma_tiling_sizes_attach(c0, i as int, Tile::Window(w2));
                lemma_ids_of_update(c0, i as int, Tile::Window(w2));
                lemma_state_count_update(c0, i as int, Tile::Window(w2), WindowState::Fullscreen);
            }
            let ghost c1 = self.children@;
            write_tiling_sizes(&mut self.children, &sizes);
            proof {
                lemma_same_but_size_group(c1, self.children@, WindowState::Fullscreen);
                assert forall|j: int|
                    0 <= j < c0.len() && j != i implies same_but_size(
                    #[trigger] c0[j],
                    self.children@[j],
                ) by {
                    assert(c1[j] == c0[j]);
                    assert(same_but_size(c1[j], self.children@[j]));
                }
                assert(same_but_size(c1[i as int], self.children@[i as int]));
                // The written entry at the window's rank is its new size.
                assert(c1.take(i as int) =~= c0.take(i as int));
                crate::ops::lemma_tiling_ranks_agree(c1, self.children@, i as int);
                crate::ops::lemma_tiling_size_at_rank(self.children@, i as int);
                assert(sizes@[rank as int] == newsize);
            }
            Ok(())
        } else {
            // Neither side of the transition is tiling: only the state
            // and the stash change.
            let w2 = Window { state: new_state, prev_state: stash, ..w };
            self.children[i] = Tile::Window(w2);
            proof {
                lemma_tiling_sizes_update_nontiling(c0, i as int, Tile::Window(w2));
                lemma_ids_of_update(c0, i as int, Tile::Window(w2));
                lemma_state_count_update(c0, i as int, Tile::Window(w2), WindowState::Fullscreen);
            }
            Ok(())
        }
    }

    /// Drive the direct child window with the given id into `new_state`.
    ///
    /// A request for the state it already has changes nothing. A request
    /// for `Fullscreen` first demotes any other fullscreen window on the
    /// workspace to its previous tiling or floating state, so at most one
    /// window per workspace is fullscreen. Sizes of the tiling group keep
    /// summing to the full axis exactly throughout.
    pub fn update_window_state(&mut self, id: u64, new_state: WindowState) -> (r: Result<
        (),
        WmError,
    >)
        requires
            workspace_wf(*old(self)),
        ensures
            workspace_wf(*final(self)),
            final(self).id == old(self).id,
            final(self).config == old(self).config,
            final(self).focus_order@ == old(self).focus_order@,
            final(self).children@.len() == old(self).children@.len(),
            ids_of(final(self).children@) == ids_of(old(self).children@),
            r == Err::<(), WmError>(WmError::WindowNotManaged) <==> (forall|j: int|
                0 <= j < old(self).children@.len() ==> !is_window_with(
                    #[trigger] old(self).children@[j],
                    id,
                )),
            r is Ok ==> exists|j: int|
                0 <= j < final(self).children@.len() && is_window_with(
                    #[trigger] final(self).children@[j],
                    id,
                ) && win_of(final(self).children@[j]).state == new_state,
            new_state == WindowState::Fullscreen && r is Ok ==> tiles_state_count(
                final(self).children@,
                WindowState::Fullscreen,
            ) == 1,
            r is Ok ==> update_state_post(*old(self), *final(self), id, new_state),
            ({
                let present = exists|ci: int|
                    0 <= ci < old(self).children@.len() && is_window_with(
                        #[trigger] old(self).children@[ci],
                        id,
                    );
                &&& present && (new_state == WindowState::Floating || new_state
                    == WindowState::Minimized) ==> r is Ok
                &&& present && new_state == WindowState::Tiling && tiling_sizes(
                    old(self).children@,
                ).len() < 100 ==> r is Ok
                &&& present && new_state == WindowState::Fullscreen && tiles_state_count(
                    old(self).children@,
                    WindowState::Fullscreen,
                ) == 0 ==> r is Ok
            }),
            forall|pt: PrevTiling|
                #![trigger stash_restorable(tiling_sizes(old(self).children@), pt.size as int)]
                (r is Ok && new_state == WindowState::Tiling && MIN_TILING_SIZE <= pt.size
                    && pt.size <= FULL_SIZE && tiling_sizes(old(self).children@).len() >= 1
                    && stash_restorable(tiling_sizes(old(self).children@), pt.size as int) && (
                forall|ci: int|
                    0 <= ci < old(self).children@.len() && is_window_with(
                        #[trigger] old(self).children@[ci],
                        id,
                    ) ==> win_of(old(self).children@[ci]).state != WindowState::Tiling && win_of(
                        old(self).children@[ci],
                    ).prev_tiling == Some(pt))) ==> exists|j: int|
                    0 <= j < final(self).children@.len() && is_window_with(
                        #[trigger] final(self).children@[j],
                        id,
                    ) && win_of(final(self).children@[j]).tiling_size == pt.size,
    {
        let ghost c0 = self.children@;
        let found = self.find_window(id);
        let i = match found {
            Some(i) => i,
            None => {
                return Err(WmError::WindowNotManaged);
            },
        };
        let cur = match &self.children[i] {
            Tile::Window(w) => w.state,
            Tile::Split(_) => {
                return Err(WmError::WindowNotManaged);
            },
        };
        if cur == new_state {
            proof {
                if new_state == WindowState::Fullscreen {
                    crate::ops::lemma_tiles_state_count_nonneg(c0, WindowState::Fullscreen);
                }
            }
            return Ok(());
        }
        if new_state == WindowState::Fullscreen {
            // Demote any other fullscreen window first.
            let n = self.children.len();
            let mut f: usize = 0;
            let mut have_f = false;
            let mut fstate = WindowState::Floating;
            while f < n && !have_f
                invariant
                    f <= n == self.children@.len(),
                    *self == *old(self),
                    !have_f ==> forall|k: int|
                        0 <= k < f ==> (#[trigger] self.children@[k] is Window
                            ==> self.children@[k]->Window_0.state != WindowState::Fullscreen),
                    have_f ==> f < n && self.children@[f as int] is Window && win_of(
                        self.children@[f as int],
                    ).state == WindowState::Fullscreen && fstate != WindowState::Fullscreen,
                decreases n - f, (if have_f { 0int } else { 1int }),
            {
                let mut advance = true;
                match &self.children[f] {
                    Tile::Window(w) => {
                        if matches!(w.state, WindowState::Fullscreen) {
                            have_f = true;
                            advance = false;
                            fstate = if matches!(w.prev_state, WindowState::Tiling) {
                                WindowState::Tiling
                            } else {
                                WindowState::Floating
                            };
                        }
                    },
                    Tile::Split(_) => {},
                }
                if advance {
                    f = f + 1;
                }
            }
            if have_f {
                proof {
                    crate::ops::lemma_tiles_state_count_nonneg(
                        self.children@,
                        WindowState::Fullscreen,
                    );
                }
                let res = self.transition_window(f, fstate);
                if res.is_err() {
                    return Err(WmError::InvalidTreeState);
                }
            } else {
                proof {
                    crate::ops::lemma_state_count_zero_when_no_direct(
                        self.children@,
                        WindowState::Fullscreen,
                    );
                }
            }
            let ghost iwin = self.children@[i as int];
            let r2 = self.transition_window(i, new_state);
            proof {
                if r2 is Ok {
                    assert(is_window_with(self.children@[i as int], id)) by {
                        if have_f {
                            assert(same_but_size(c0[i as int], iwin));
                        }
                    }
                }
            }
            return r2;
        }
        let r3 = self.transition_window(i, new_state);
        proof {
            if r3 is Ok {
                assert(is_window_with(self.children@[i as int], id));
            }
        }
        r3
    }

    /// Manage a new window into this workspace, appended at the end of
    /// the tiling root (the existing tiling members scale to make room)
    /// or floating with the given rectangle. The new window enters at the
    /// back of the focus order.
    pub fn manage_window(
        &mut self,
        id: u64,
        handle: u64,
        state: WindowState,
        floating_rect: Rect,
        display_state: DisplayState,
    ) -> (r: Result<(), WmError>)
        requires
            workspace_wf(*old(self)),
            rect_wf(floating_rect),
            state == WindowState::Tiling || state == WindowState::Floating,
        ensures
            final(self).id == old(self).id,
            final(self).config == old(self).config,
            r is Err ==> *final(self) == *old(self),
            r is Err <==> state == WindowState::Tiling && tiling_sizes(old(self).children@).len()
                >= 100,
            r is Err ==> r == Err::<(), WmError>(WmError::InvalidTreeState),
            r is Ok ==> {
                &&& workspace_wf(*final(self))
                &&& final(self).children@.len() == old(self).children@.len() + 1
                &&& final(self).children@.last() is Window
                &&& win_of(final(self).children@.last()).id == id
                &&& win_of(final(self).children@.last()).handle == handle
                &&& win_of(final(self).children@.last()).state == state
                &&& ids_of(final(self).children@) == ids_of(old(self).children@).push(id)
                &&& final(self).focus_order@ == old(self).focus_order@.push(id)
                &&& forall|j: int|
                    0 <= j < old(self).children@.len() ==> same_but_size(
                        #[trigger] old(self).children@[j],
                        final(self).children@[j],
                    )
            },
    {
        broadcast use vstd::seq_lib::group_to_multiset_ensures;

        let ghost c0 = self.children@;
        let mut size: u32 = 0;
        if state == WindowState::Tiling {
            let mut sizes = extract_tiling_sizes(&self.children);
            if sizes.len() >= 100 {
                return Err(WmError::InvalidTreeState);
            }
            size = insert_tiling_size(&mut sizes);
            write_tiling_sizes(&mut self.children, &sizes);
            proof {
                lemma_same_but_size_group(c0, self.children@, WindowState::Fullscreen);
            }
        } else {
            proof {
                crate::ops::lemma_same_but_size_refl_group(c0);
            }
        }
        let w = Window {
            id,
            handle,
            state,
            prev_state: state,
            display_state,
            tiling_size: size,
            floating_rect,
            prev_tiling: None,
        };
        let ghost c1 = self.children@;
        self.children.push(Tile::Window(w));
        self.focus_order.push(id);
        proof {
            lemma_ids_of_push(c1, Tile::Window(w));
            lemma_state_count_push(c1, Tile::Window(w), WindowState::Fullscreen);
            lemma_tiling_sizes_push(c1, Tile::Window(w));
            lemma_same_but_size_group(c0, c1, WindowState::Fullscreen);
            if state == WindowState::Tiling {
                assert(tiling_sizes(self.children@) =~= tiling_sizes(c1).push(size));
            }
            assert(ids_of(self.children@) =~= ids_of(c0).push(id));
            assert(self.focus_order@.to_multiset() =~= ids_of(self.children@).to_multiset());
        }
        Ok(())
    }

    /// Detach the direct child window with the given id from the
    /// workspace entirely: a tiling window first hands its size to its
    /// siblings, then the child and its focus-order entry are removed.
    pub fn detach_window(&mut self, id: u64) -> (r: Result<Window, WmError>)
        requires
            workspace_wf(*old(self)),
        ensures
            final(self).id == old(self).id,
            final(self).config == old(self).config,
            r is Err ==> *final(self) == *old(self) && r == Err::<Window, WmError>(
                WmError::WindowNotManaged,
            ),
            r is Err <==> (forall|ci: int|
                0 <= ci < old(self).children@.len() ==> !is_window_with(
                    #[trigger] old(self).children@[ci],
                    id,
                )),
            r is Ok ==> {
                &&& workspace_wf(*final(self))
                &&& final(self).children@.len() + 1 == old(self).children@.len()
                &&& r->Ok_0.id == id
                &&& ids_of(final(self).children@).to_multiset() == ids_of(
                    old(self).children@,
                ).to_multiset().remove(id)
            },
    {
        broadcast use vstd::seq_lib::group_to_multiset_ensures;

        let ghost c0 = self.children@;
        let found = self.find_window(id);
        let i = match found {
            Some(i) => i,
            None => {
                return Err(WmError::WindowNotManaged);
            },
        };
        let w: Window = match &self.children[i] {
            Tile::Window(w) => *w,
            Tile::Split(_) => {
                return Err(WmError::WindowNotManaged);
            },
        };
        // A tiling window first leaves the tiling group.
        if matches!(w.state, WindowState::Floating) == false {
            let res = self.transition_window(i, WindowState::Floating);
            if res.is_err() {
                return Err(WmError::WindowNotManaged);
            }
        }
        let ghost c1 = self.children@;
        self.children.remove(i);
        proof {
            crate::ops::lemma_tiling_sizes_remove_nontiling(c1, i as int);
            crate::ops::lemma_ids_of_remove(c1, i as int);
            crate::ops::lemma_state_count_remove(c1, i as int, WindowState::Fullscreen);
            crate::ops::lemma_ids_of_index(c1, i as int);
            crate::ops::lemma_tiles_state_count_nonneg(c1, WindowState::Fullscreen);
            crate::ops::lemma_state_count_nonneg(c1[i as int], WindowState::Fullscreen);
        }
        // Drop the focus-order entry of the removed window.
        let ghost f0 = self.focus_order@;
        let n = self.focus_order.len();
        let mut j: usize = 0;
        let mut fidx: usize = 0;
        let mut have = false;
        while j < n && !have
            invariant
                j <= n == self.focus_order@.len(),
                self.focus_order@ == f0,
                !have ==> forall|k: int| 0 <= k < j ==> self.focus_order@[k] != id,
                have ==> fidx < n && self.focus_order@[fidx as int] == id,
            decreases n - j, (if have { 0int } else { 1int }),
        {
            if self.focus_order[j] == id {
                fidx = j;
                have = true;
            } else {
                j = j + 1;
            }
        }
        proof {
            assert(ids_of(c1)[i as int] == id);
            assert(ids_of(c1).contains(id)) by {
                assert(ids_of(c1)[i as int] == id);
                crate::ops::lemma_ids_of_len(c1);
            }
            assert(ids_of(c1).to_multiset().count(id) > 0);
            assert(self.focus_order@.to_multiset().count(id) > 0);
            if !have {
                assert(!self.focus_order@.contains(id));
                assert(false);
            }
        }
        self.focus_order.remove(fidx);
        proof {
            assert(self.focus_order@.to_multiset() =~= ids_of(self.children@).to_multiset());
        }
        Ok(w)
    }
}

} // verus!
