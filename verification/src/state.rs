//! The WM state object: the container tree's root, the redraw queue, the
//! pending focus-sync flag, the grace-period timestamp, and the lookups
//! and focus bookkeeping the event handlers build on.

use vstd::prelude::*;

use crate::focus::promote_focus;
use crate::geometry::{rect_wf, Rect, MAX_SCALE_PCT};
use crate::sizing::group_wf;
use crate::tree::{
    ids_of, monitor_ids, monitor_wf, root_wf, tile_id, workspace_ids, workspace_wf, DisplayState,
    FocusMode, GapsConfig, Monitor, RootContainer, Tile, TilingDirection, WindowState, WmError,
    WmEvent, Workspace, WorkspaceConfig,
};

verus! {

/// What the platform shell reports about one monitor at startup.
pub struct MonitorSpec {
    pub handle: u64,
    pub rect: Rect,
    pub working_rect: Rect,
    pub scale_pct: u32,
    pub workspace_config: WorkspaceConfig,
}

/// What the platform shell reports about one manageable window at
/// startup: its native handle and the handle of its nearest monitor.
#[derive(Clone, Copy, Debug, PartialEq, Eq, Structural)]
pub struct WindowSpec {
    pub handle: u64,
    pub monitor_handle: u64,
}

/// A window of the tree: its container id, its native handle, and its
/// current layout and display states.
#[derive(Clone, Copy, Debug, PartialEq, Eq, Structural)]
pub struct WindowEntry {
    pub id: u64,
    pub handle: u64,
    pub state: WindowState,
    pub display_state: DisplayState,
}

/// The whole window manager state.
pub struct WmState {
    /// Root node of the container tree: monitors, then workspaces, then
    /// split containers and windows.
    pub root_container: RootContainer,
    /// Ids of containers with a pending redraw.
    pub containers_to_redraw: Vec<u64>,
    /// Whether native focus needs to be reassigned to the WM's focused
    /// container.
    pub has_pending_focus_sync: bool,
    /// Native handle of the window carrying the active border, if any.
    pub active_border_window: Option<u64>,
    /// Time (in milliseconds) when a focused window was last unmanaged
    /// or minimized; used to veto OS-initiated focus events.
    pub unmanaged_or_minimized_timestamp: Option<u64>,
    /// Names of any currently enabled binding modes.
    pub binding_modes: Vec<String>,
    /// Events for IPC subscribers, drained by the shell.
    pub pending_events: Vec<WmEvent>,
    /// Source of fresh container ids.
    pub next_id: u64,
}

/// Well-formedness of the whole WM state: the container tree invariants.
pub open spec fn wm_wf(s: WmState) -> bool {
    root_wf(s.root_container)
}

/// Whether a focus event at `now_ms` falls into the grace period after
/// an unmanage or minimize, during which the WM vetoes it.
pub open spec fn within_grace(stamp: Option<u64>, now_ms: u64) -> bool {
    match stamp {
        Some(t) => t <= now_ms && now_ms - t < crate::FOCUS_OVERRIDE_GRACE_MS,
        None => false,
    }
}

impl WmState {
    /// A fresh state with an empty tree.
    pub fn new() -> (s: WmState)
        ensures
            wm_wf(s),
            s.root_container.monitors@ == Seq::<Monitor>::empty(),
            s.containers_to_redraw@ == Seq::<u64>::empty(),
            !s.has_pending_focus_sync,
            s.active_border_window is None,
            s.unmanaged_or_minimized_timestamp is None,
            s.binding_modes@ == Seq::<String>::empty(),
            s.pending_events@ == Seq::<WmEvent>::empty(),
            s.next_id == 1,
    {
        let s = WmState {
            root_container: RootContainer { monitors: Vec::new(), focus_order: Vec::new() },
            containers_to_redraw: Vec::new(),
            has_pending_focus_sync: false,
            active_border_window: None,
            unmanaged_or_minimized_timestamp: None,
            binding_modes: Vec::new(),
            pending_events: Vec::new(),
            next_id: 1,
        };
        proof {
            assert(monitor_ids(s.root_container.monitors@) =~= Seq::<u64>::empty());
            assert(s.root_container.focus_order@.to_multiset() =~= monitor_ids(
                s.root_container.monitors@,
            ).to_multiset());
        }
        s
    }

    /// Monitors of the tree, in order.
    pub fn monitors(&self) -> (r: &Vec<Monitor>)
        ensures
            r == &self.root_container.monitors,
    {
        &self.root_container.monitors
    }

    /// Ids of all workspaces, monitor by monitor, in order.
    pub fn workspaces(&self) -> (r: Vec<u64>)
        ensures
            r@ == all_workspace_ids(self.root_container.monitors@),
    {
        let mut r: Vec<u64> = Vec::new();
        let n = self.root_container.monitors.len();
        let mut i: usize = 0;
        while i < n
            invariant
                i <= n == self.root_container.monitors@.len(),
                r@ == all_workspace_ids(self.root_container.monitors@.take(i as int)),
            decreases n - i,
        {
            proof {
                lemma_all_ws_ids_take_succ(self.root_container.monitors@, i as int);
            }
            let m = &self.root_container.monitors[i];
            let k = m.workspaces.len();
            let mut j: usize = 0;
            while j < k
                invariant
                    j <= k == self.root_container.monitors@[i as int].workspaces@.len(),
                    i < self.root_container.monitors@.len(),
                    r@ == all_workspace_ids(self.root_container.monitors@.take(i as int))
                        + workspace_ids(
                        self.root_container.monitors@[i as int].workspaces@,
                    ).take(j as int),
                decreases k - j,
            {
                let id = self.root_container.monitors[i].workspaces[j].id;
                r.push(id);
                proof {
                    assert(r@ =~= all_workspace_ids(self.root_container.monitors@.take(i as int))
                        + workspace_ids(
                        self.root_container.monitors@[i as int].workspaces@,
                    ).take(j as int + 1));
                }
                j = j + 1;
            }
            proof {
                assert(workspace_ids(self.root_container.monitors@[i as int].workspaces@).take(
                    k as int,
                ) =~= workspace_ids(self.root_container.monitors@[i as int].workspaces@));
            }
            i = i + 1;
        }
        proof {
            assert(self.root_container.monitors@.take(n as int) =~= self.root_container.monitors@);
        }
        r
    }

    /// The entries of every window of the tree, split-nested windows
    /// included, in depth-first order.
    pub fn windows(&self) -> (r: Vec<WindowEntry>)
        ensures
            r@ == all_window_entries(self.root_container.monitors@),
    {
        let mut r: Vec<WindowEntry> = Vec::new();
        let n = self.root_container.monitors.len();
        let mut i: usize = 0;
        while i < n
            invariant
                i <= n == self.root_container.monitors@.len(),
                r@ == all_window_entries(self.root_container.monitors@.take(i as int)),
            decreases n - i,
        {
            proof {
                lemma_all_win_entries_take_succ(self.root_container.monitors@, i as int);
            }
            let k = self.root_container.monitors[i].workspaces.len();
            let mut j: usize = 0;
            while j < k
                invariant
                    j <= k == self.root_container.monitors@[i as int].workspaces@.len(),
                    i < self.root_container.monitors@.len(),
                    r@ == all_window_entries(self.root_container.monitors@.take(i as int))
                        + monitor_window_entries_upto(
                        self.root_container.monitors@[i as int],
                        j as int,
                    ),
                decreases k - j,
            {
                proof {
                    lemma_mon_win_entries_take_succ(
                        self.root_container.monitors@[i as int],
                        j as int,
                    );
                }
                let c = self.root_container.monitors[i].workspaces[j].children.len();
                let mut t: usize = 0;
                while t < c
                    invariant
                        t <= c == self.root_container.monitors@[i as int].workspaces@[
                            j as int
                        ].children@.len(),
                        i < self.root_container.monitors@.len(),
                        j < self.root_container.monitors@[i as int].workspaces@.len(),
                        r@ == all_window_entries(self.root_container.monitors@.take(i as int))
                            + monitor_window_entries_upto(
                            self.root_container.monitors@[i as int],
                            j as int,
                        ) + ws_window_entries_upto(
                            self.root_container.monitors@[i as int].workspaces@[j as int],
                            t as int,
                        ),
                    decreases c - t,
                {
                    proof {
                        lemma_ws_win_entries_take_succ(
                            self.root_container.monitors@[i as int].workspaces@[j as int],
                            t as int,
                        );
                    }
                    collect_tile_entries(
                        &self.root_container.monitors[i].workspaces[j].children[t],
                        &mut r,
                    );
                    proof {
                        assert(r@ =~= all_window_entries(
                            self.root_container.monitors@.take(i as int),
                        ) + monitor_window_entries_upto(
                            self.root_container.monitors@[i as int],
                            j as int,
                        ) + ws_window_entries_upto(
                            self.root_container.monitors@[i as int].workspaces@[j as int],
                            t as int + 1,
                        ));
                    }
                    t = t + 1;
                }
                j = j + 1;
            }
            i = i + 1;
        }
        proof {
            assert(self.root_container.monitors@.take(n as int) =~= self.root_container.monitors@);
        }
        r
    }
}

/// The first entry with the given native handle among the tree's
/// windows, scanning from position `j`.
pub open spec fn find_entry_by_handle(es: Seq<WindowEntry>, j: int, handle: u64) -> Option<
    WindowEntry,
>
    decreases es.len() - j,
{
    if j < 0 || j >= es.len() {
        None
    } else if es[j].handle == handle {
        Some(es[j])
    } else {
        find_entry_by_handle(es, j + 1, handle)
    }
}

/// The first entry with the given container id, scanning from `j`.
pub open spec fn find_entry_by_id(es: Seq<WindowEntry>, j: int, id: u64) -> Option<WindowEntry>
    decreases es.len() - j,
{
    if j < 0 || j >= es.len() {
        None
    } else if es[j].id == id {
        Some(es[j])
    } else {
        find_entry_by_id(es, j + 1, id)
    }
}

impl WmState {
    /// The window of the tree with the given native handle, if any.
    pub fn window_from_native(&self, handle: u64) -> (r: Option<WindowEntry>)
        ensures
            r == find_entry_by_handle(all_window_entries(self.root_container.monitors@), 0, handle),
    {
        let entries = self.windows();
        let n = entries.len();
        let mut j: usize = 0;
        while j < n
            invariant
                j <= n == entries@.len(),
                entries@ == all_window_entries(self.root_container.monitors@),
                find_entry_by_handle(entries@, 0, handle) == find_entry_by_handle(
                    entries@,
                    j as int,
                    handle,
                ),
            decreases n - j,
        {
            if entries[j].handle == handle {
                return Some(entries[j]);
            }
            j = j + 1;
        }
        None
    }

    /// The window of the tree with the given container id, if any.
    pub fn window_by_id(&self, id: u64) -> (r: Option<WindowEntry>)
        ensures
            r == find_entry_by_id(all_window_entries(self.root_container.monitors@), 0, id),
    {
        let entries = self.windows();
        let n = entries.len();
        let mut j: usize = 0;
        while j < n
            invariant
                j <= n == entries@.len(),
                entries@ == all_window_entries(self.root_container.monitors@),
                find_entry_by_id(entries@, 0, id) == find_entry_by_id(entries@, j as int, id),
            decreases n - j,
        {
            if entries[j].id == id {
                return Some(entries[j]);
            }
            j = j + 1;
        }
        None
    }

    /// The monitor with the given native handle, if any (the first such
    /// monitor, in tree order).
    pub fn monitor_from_native(&self, native_handle: u64) -> (r: Option<u64>)
        ensures
            r == ({
                let i = find_monitor_by_handle(self.root_container.monitors@, native_handle, 0);
                if 0 <= i < self.root_container.monitors@.len() {
                    Some(self.root_container.monitors@[i].id)
                } else {
                    None::<u64>
                }
            }),
    {
        let n = self.root_container.monitors.len();
        let mut i: usize = 0;
        while i < n
            invariant
                i <= n == self.root_container.monitors@.len(),
                find_monitor_by_handle(self.root_container.monitors@, native_handle, 0)
                    == find_monitor_by_handle(self.root_container.monitors@, native_handle, i as int),
            decreases n - i,
        {
            if self.root_container.monitors[i].handle == native_handle {
                return Some(self.root_container.monitors[i].id);
            }
            i = i + 1;
        }
        None
    }

    /// The monitor nearest a window: the one the shell reported for its
    /// handle, or failing that the first monitor; none only when the
    /// tree has no monitors at all.
    pub fn nearest_monitor(&self, native_monitor_handle: u64) -> (r: Option<u64>)
        ensures
            r == ({
                let ms = self.root_container.monitors@;
                let i = find_monitor_by_handle(ms, native_monitor_handle, 0);
                if 0 <= i < ms.len() {
                    Some(ms[i].id)
                } else if ms.len() > 0 {
                    Some(ms[0].id)
                } else {
                    None::<u64>
                }
            }),
    {
        let hit = self.monitor_from_native(native_monitor_handle);
        match hit {
            Some(id) => Some(id),
            None => {
                if self.root_container.monitors.len() > 0 {
                    Some(self.root_container.monitors[0].id)
                } else {
                    None
                }
            },
        }
    }

    /// Queue a container for redraw.
    pub fn add_container_to_redraw(&mut self, container_id: u64)
        ensures
            *final(self) == (WmState {
                containers_to_redraw: final(self).containers_to_redraw,
                ..*old(self)
            }),
            final(self).containers_to_redraw@ == old(self).containers_to_redraw@.push(container_id),
    {
        self.containers_to_redraw.push(container_id);
    }

    /// Remove all containers from the redraw queue.
    pub fn clear_containers_to_redraw(&mut self)
        ensures
            *final(self) == (WmState {
                containers_to_redraw: final(self).containers_to_redraw,
                ..*old(self)
            }),
            final(self).containers_to_redraw@ == Seq::<u64>::empty(),
    {
        self.containers_to_redraw.clear();
    }

    /// The windows to redraw: each queued container id expanded to the
    /// ids of the windows in its subtree (itself for a window, all its
    /// windows for a split, a workspace or a monitor), deduplicated by
    /// id; a queued id that no longer resolves contributes nothing.
    #[verifier::loop_isolation(false)]
    pub fn windows_to_redraw(&self) -> (r: Vec<u64>)
        ensures
            r@ == dedup_ids(queue_expand(self.root_container.monitors@, self.containers_to_redraw@)),
    {
        let mut raw: Vec<u64> = Vec::new();
        let n = self.containers_to_redraw.len();
        let mut i: usize = 0;
        while i < n
            invariant
                i <= n,
                raw@ == queue_expand(
                    self.root_container.monitors@,
                    self.containers_to_redraw@.take(i as int),
                ),
            decreases n - i,
        {
            proof {
                assert(self.containers_to_redraw@.take(i as int + 1).drop_last()
                    =~= self.containers_to_redraw@.take(i as int));
            }
            let id = self.containers_to_redraw[i];
            self.collect_expand_id(id, &mut raw);
            i = i + 1;
        }
        proof {
            assert(self.containers_to_redraw@.take(n as int) =~= self.containers_to_redraw@);
        }
        // Deduplicate, keeping first occurrences.
        let mut r: Vec<u64> = Vec::new();
        let k = raw.len();
        let mut j: usize = 0;
        while j < k
            invariant
                j <= k == raw@.len(),
                r@ == dedup_ids(raw@.take(j as int)),
            decreases k - j,
        {
            proof {
                assert(raw@.take(j as int + 1).drop_last() =~= raw@.take(j as int));
            }
            let x = raw[j];
            let rl = r.len();
            let mut q: usize = 0;
            let mut seen = false;
            while q < rl && !seen
                invariant
                    q <= rl == r@.len(),
                    !seen ==> forall|p: int| 0 <= p < q ==> r@[p] != x,
                    seen ==> r@.contains(x),
                decreases rl - q, (if seen { 0int } else { 1int }),
            {
                if r[q] == x {
                    seen = true;
                } else {
                    q = q + 1;
                }
            }
            if !seen {
                r.push(x);
            }
            j = j + 1;
        }
        proof {
            assert(raw@.take(k as int) =~= raw@);
        }
        r
    }

    /// Append the window ids that a queued container id stands for.
    #[verifier::loop_isolation(false)]
    fn collect_expand_id(&self, id: u64, out: &mut Vec<u64>)
        ensures
            final(out)@ == old(out)@ + root_expand(self.root_container.monitors@, id),
    {
        let ghost o0 = out@;
        let n = self.root_container.monitors.len();
        let mut mi: usize = 0;
        while mi < n
            invariant
                mi <= n,
                out@ == o0 + root_expand_upto(self.root_container.monitors@, id, mi as int),
            decreases n - mi,
        {
            let m = &self.root_container.monitors[mi];
            let ghost before = out@;
            if m.id == id {
                // The whole monitor: every window of every workspace.
                let k = m.workspaces.len();
                let mut wi: usize = 0;
                while wi < k
                    invariant
                        wi <= k == m.workspaces@.len(),
                        out@ == before + mon_window_ids_upto(m.workspaces@, wi as int),
                    decreases k - wi,
                {
                    let c = m.workspaces[wi].children.len();
                    let ghost before2 = out@;
                    let mut ci: usize = 0;
                    while ci < c
                        invariant
                            ci <= c == m.workspaces@[wi as int].children@.len(),
                            wi < m.workspaces@.len(),
                            out@ == before2 + crate::tree::tiles_window_ids(
                                m.workspaces@[wi as int].children@.take(ci as int),
                            ),
                        decreases c - ci,
                    {
                        proof {
                            lemma_tiles_window_ids_take_succ(
                                m.workspaces@[wi as int].children@,
                                ci as int,
                            );
                        }
                        collect_tile_window_ids(&m.workspaces[wi].children[ci], out);
                        ci = ci + 1;
                    }
                    proof {
                        assert(m.workspaces@[wi as int].children@.take(c as int)
                            =~= m.workspaces@[wi as int].children@);
                    }
                    wi = wi + 1;
                }
            } else {
                // A workspace or a tile inside one of the workspaces.
                let k = m.workspaces.len();
                let mut wi: usize = 0;
                while wi < k
                    invariant
                        wi <= k == m.workspaces@.len(),
                        out@ == before + ws_seq_expand_upto(m.workspaces@, id, wi as int),
                    decreases k - wi,
                {
                    let c = m.workspaces[wi].children.len();
                    let ghost before2 = out@;
                    let ws_hit = m.workspaces[wi].id == id;
                    let mut ci: usize = 0;
                    while ci < c
                        invariant
                            ci <= c == m.workspaces@[wi as int].children@.len(),
                            wi < m.workspaces@.len(),
                            ws_hit == (m.workspaces@[wi as int].id == id),
                            ws_hit ==> out@ == before2 + crate::tree::tiles_window_ids(
                                m.workspaces@[wi as int].children@.take(ci as int),
                            ),
                            !ws_hit ==> out@ == before2 + tiles_expand(
                                m.workspaces@[wi as int].children@.take(ci as int),
                                id,
                            ),
                        decreases c - ci,
                    {
                        proof {
                            lemma_tiles_window_ids_take_succ(
                                m.workspaces@[wi as int].children@,
                                ci as int,
                            );
                            lemma_tiles_expand_take_succ(
                                m.workspaces@[wi as int].children@,
                                id,
                                ci as int,
                            );
                        }
                        if ws_hit {
                            collect_tile_window_ids(&m.workspaces[wi].children[ci], out);
                        } else {
                            collect_tile_expand(&m.workspaces[wi].children[ci], id, out);
                        }
                        ci = ci + 1;
                    }
                    proof {
                        assert(m.workspaces@[wi as int].children@.take(c as int)
                            =~= m.workspaces@[wi as int].children@);
                    }
                    wi = wi + 1;
                }
            }
            mi = mi + 1;
        }
    }

    /// Record an event for IPC subscribers; the shell drains and sends
    /// them.
    pub fn emit_event(&mut self, event: WmEvent)
        ensures
            *final(self) == (WmState { pending_events: final(self).pending_events, ..*old(self) }),
            final(self).pending_events@ == old(self).pending_events@.push(event),
    {
        self.pending_events.push(event);
    }

    /// Hand the queued events to the shell, leaving the queue empty.
    pub fn take_pending_events(&mut self) -> (r: Vec<WmEvent>)
        ensures
            *final(self) == (WmState { pending_events: final(self).pending_events, ..*old(self) }),
            final(self).pending_events@ == Seq::<WmEvent>::empty(),
            r@ == old(self).pending_events@,
    {
        let mut out: Vec<WmEvent> = Vec::new();
        core::mem::swap(&mut out, &mut self.pending_events);
        out
    }
}

/// Whether position (mi, wi, ci) in a monitor list holds a tile with
/// the given id.
pub open spec fn tile_with_id_at(ms: Seq<Monitor>, mi: int, wi: int, ci: int, id: u64) -> bool {
    &&& 0 <= mi < ms.len()
    &&& 0 <= wi < ms[mi].workspaces@.len()
    &&& 0 <= ci < ms[mi].workspaces@[wi].children@.len()
    &&& tile_id(ms[mi].workspaces@[wi].children@[ci]) == id
}

/// Whether position (mi, wi, ci) holds a tiling tile with the given id.
pub open spec fn tiling_tile_at(ms: Seq<Monitor>, mi: int, wi: int, ci: int, id: u64) -> bool {
    &&& tile_with_id_at(ms, mi, wi, ci, id)
    &&& crate::tree::is_tiling(ms[mi].workspaces@[wi].children@[ci])
}

/// Whether position (mi, wi, ci) holds a window with the given id.
pub open spec fn window_with_id_at(ms: Seq<Monitor>, mi: int, wi: int, ci: int, id: u64) -> bool {
    &&& 0 <= mi < ms.len()
    &&& 0 <= wi < ms[mi].workspaces@.len()
    &&& 0 <= ci < ms[mi].workspaces@[wi].children@.len()
    &&& crate::workspace::is_window_with(ms[mi].workspaces@[wi].children@[ci], id)
}

/// Whether two monitor lists agree on everything but the contents of
/// their workspaces: same monitors (identity, geometry, scale) and same
/// workspaces (identity and configuration) in the same places.
pub open spec fn same_skeleton(a: Seq<Monitor>, b: Seq<Monitor>) -> bool {
    &&& b.len() == a.len()
    &&& forall|i: int|
        0 <= i < a.len() ==> {
            let m0 = #[trigger] a[i];
            let m1 = #[trigger] b[i];
            &&& m1.id == m0.id
            &&& m1.handle == m0.handle
            &&& m1.rect == m0.rect
            &&& m1.working_rect == m0.working_rect
            &&& m1.scale_pct == m0.scale_pct
            &&& m1.workspaces@.len() == m0.workspaces@.len()
            &&& forall|j: int|
                0 <= j < m0.workspaces@.len() ==> (#[trigger] m1.workspaces@[j]).id
                    == m0.workspaces@[j].id && m1.workspaces@[j].config == m0.workspaces@[j].config
        }
}

/// Skeleton agreement is reflexive.
pub proof fn lemma_same_skeleton_refl(a: Seq<Monitor>)
    ensures
        same_skeleton(a, a),
{
}

/// Skeleton agreement is transitive.
pub proof fn lemma_same_skeleton_trans(a: Seq<Monitor>, b: Seq<Monitor>, c: Seq<Monitor>)
    requires
        same_skeleton(a, b),
        same_skeleton(b, c),
    ensures
        same_skeleton(a, c),
{
    assert forall|i: int|
        0 <= i < a.len() implies {
        let m0 = #[trigger] a[i];
        let m1 = #[trigger] c[i];
        &&& m1.id == m0.id
        &&& m1.handle == m0.handle
        &&& m1.rect == m0.rect
        &&& m1.working_rect == m0.working_rect
        &&& m1.scale_pct == m0.scale_pct
        &&& m1.workspaces@.len() == m0.workspaces@.len()
        &&& forall|j: int|
            0 <= j < m0.workspaces@.len() ==> (#[trigger] m1.workspaces@[j]).id
                == m0.workspaces@[j].id && m1.workspaces@[j].config == m0.workspaces@[j].config
    } by {
        assert(b[i].id == a[i].id);
        assert forall|j: int|
            0 <= j < a[i].workspaces@.len() implies (#[trigger] c[i].workspaces@[j]).id == a[
            i
        ].workspaces@[j].id && c[i].workspaces@[j].config == a[i].workspaces@[j].config by {
            assert((b[i].workspaces@[j]).id == a[i].workspaces@[j].id && b[i].workspaces@[j].config
                == a[i].workspaces@[j].config);
            assert((c[i].workspaces@[j]).id == b[i].workspaces@[j].id && c[i].workspaces@[j].config
                == b[i].workspaces@[j].config);
        }
    }
}

/// The focus mode of a state: floating exactly when the focused
/// container is a window in a non-tiling layout state, tiling for a
/// tiling window or a workspace, none when nothing is focused.
pub open spec fn focus_mode_spec(s: WmState) -> Option<FocusMode> {
    match focused_container_spec(s.root_container) {
        None => None,
        Some(fid) => match find_entry_by_id(all_window_entries(s.root_container.monitors@), 0, fid) {
            Some(e) => if e.state == WindowState::Tiling {
                Some(FocusMode::Tiling)
            } else {
                Some(FocusMode::Floating)
            },
            None => Some(FocusMode::Tiling),
        },
    }
}

/// The expansion of a queue of container ids into window ids, in order,
/// duplicates included.
pub open spec fn queue_expand(ms: Seq<Monitor>, q: Seq<u64>) -> Seq<u64>
    decreases q.len(),
{
    if q.len() == 0 {
        Seq::empty()
    } else {
        queue_expand(ms, q.drop_last()) + root_expand(ms, q.last())
    }
}

/// The window ids that one container id stands for in the tree: the
/// windows of the monitor, workspace or tile subtree carrying the id
/// (itself for a window); empty when the id no longer resolves.
pub open spec fn root_expand(ms: Seq<Monitor>, id: u64) -> Seq<u64> {
    root_expand_upto(ms, id, ms.len() as int)
}

/// `root_expand` over the first `j` monitors.
pub open spec fn root_expand_upto(ms: Seq<Monitor>, id: u64, j: int) -> Seq<u64>
    decreases j,
{
    if j <= 0 {
        Seq::empty()
    } else {
        root_expand_upto(ms, id, j - 1) + (if 0 <= j - 1 < ms.len() {
            if ms[j - 1].id == id {
                mon_window_ids_upto(ms[j - 1].workspaces@, ms[j - 1].workspaces@.len() as int)
            } else {
                ws_seq_expand_upto(ms[j - 1].workspaces@, id, ms[j - 1].workspaces@.len() as int)
            }
        } else {
            Seq::<u64>::empty()
        })
    }
}

/// All window ids of the first `j` workspaces.
pub open spec fn mon_window_ids_upto(ws: Seq<Workspace>, j: int) -> Seq<u64>
    decreases j,
{
    if j <= 0 {
        Seq::empty()
    } else {
        mon_window_ids_upto(ws, j - 1) + (if 0 <= j - 1 < ws.len() {
            crate::tree::tiles_window_ids(ws[j - 1].children@)
        } else {
            Seq::<u64>::empty()
        })
    }
}

/// The expansion of one id within the first `j` workspaces.
pub open spec fn ws_seq_expand_upto(ws: Seq<Workspace>, id: u64, j: int) -> Seq<u64>
    decreases j,
{
    if j <= 0 {
        Seq::empty()
    } else {
        ws_seq_expand_upto(ws, id, j - 1) + (if 0 <= j - 1 < ws.len() {
            if ws[j - 1].id == id {
                crate::tree::tiles_window_ids(ws[j - 1].children@)
            } else {
                tiles_expand(ws[j - 1].children@, id)
            }
        } else {
            Seq::<u64>::empty()
        })
    }
}

/// The window ids under the tile carrying `id` within a sibling group.
pub open spec fn tiles_expand(ts: Seq<Tile>, id: u64) -> Seq<u64>
    decreases ts,
{
    if ts.len() == 0 {
        Seq::empty()
    } else {
        tiles_expand(ts.drop_last(), id) + tile_expand(ts.last(), id)
    }
}

/// The window ids a container id stands for within one tile subtree.
pub open spec fn tile_expand(t: Tile, id: u64) -> Seq<u64>
    decreases t,
{
    if tile_id(t) == id {
        crate::tree::tile_window_ids(t)
    } else {
        match t {
            Tile::Split(s) => tiles_expand(s.children@, id),
            Tile::Window(_) => Seq::empty(),
        }
    }
}

/// A list of ids with later duplicates removed (first occurrences kept).
pub open spec fn dedup_ids(s: Seq<u64>) -> Seq<u64>
    decreases s.len(),
{
    if s.len() == 0 {
        s
    } else {
        let p = dedup_ids(s.drop_last());
        if p.contains(s.last()) {
            p
        } else {
            p.push(s.last())
        }
    }
}

proof fn lemma_tiles_window_ids_take_succ(ts: Seq<Tile>, i: int)
    requires
        0 <= i < ts.len(),
    ensures
        crate::tree::tiles_window_ids(ts.take(i + 1)) == crate::tree::tiles_window_ids(ts.take(i))
            + crate::tree::tile_window_ids(ts[i]),
{
    assert(ts.take(i + 1).drop_last() =~= ts.take(i));
    assert(ts.take(i + 1).last() == ts[i]);
}

proof fn lemma_tiles_expand_take_succ(ts: Seq<Tile>, id: u64, i: int)
    requires
        0 <= i < ts.len(),
    ensures
        tiles_expand(ts.take(i + 1), id) == tiles_expand(ts.take(i), id) + tile_expand(ts[i], id),
{
    assert(ts.take(i + 1).drop_last() =~= ts.take(i));
    assert(ts.take(i + 1).last() == ts[i]);
}

/// Append the ids of every window in a tile's subtree, depth-first.
#[verifier::loop_isolation(false)]
fn collect_tile_window_ids(t: &Tile, out: &mut Vec<u64>)
    ensures
        final(out)@ == old(out)@ + crate::tree::tile_window_ids(*t),
    decreases t,
{
    let ghost o0 = out@;
    match t {
        Tile::Window(w) => {
            out.push(w.id);
            proof {
                assert(out@ =~= o0 + crate::tree::tile_window_ids(*t));
            }
        },
        Tile::Split(s) => {
            let n = s.children.len();
            let mut j: usize = 0;
            while j < n
                invariant
                    j <= n == s.children@.len(),
                    out@ == o0 + crate::tree::tiles_window_ids(s.children@.take(j as int)),
                decreases n - j,
            {
                proof {
                    lemma_tiles_window_ids_take_succ(s.children@, j as int);
                }
                collect_tile_window_ids(&s.children[j], out);
                j = j + 1;
            }
            proof {
                assert(s.children@.take(n as int) =~= s.children@);
            }
        },
    }
}

/// Append the window ids the given container id stands for within one
/// tile subtree.
#[verifier::loop_isolation(false)]
fn collect_tile_expand(t: &Tile, id: u64, out: &mut Vec<u64>)
    ensures
        final(out)@ == old(out)@ + tile_expand(*t, id),
    decreases t,
{
    let ghost o0 = out@;
    let tid = t.id();
    if tid == id {
        collect_tile_window_ids(t, out);
        return ;
    }
    match t {
        Tile::Window(_) => {
            proof {
                assert(out@ =~= o0 + tile_expand(*t, id));
            }
        },
        Tile::Split(s) => {
            let n = s.children.len();
            let mut j: usize = 0;
            while j < n
                invariant
                    j <= n == s.children@.len(),
                    out@ == o0 + tiles_expand(s.children@.take(j as int), id),
                decreases n - j,
            {
                proof {
                    lemma_tiles_expand_take_succ(s.children@, id, j as int);
                }
                collect_tile_expand(&s.children[j], id, out);
                j = j + 1;
            }
            proof {
                assert(s.children@.take(n as int) =~= s.children@);
            }
        },
    }
}

/// The position of the tile with the given id in a sibling group, or -1.
pub open spec fn find_tile_idx(ts: Seq<Tile>, id: u64, j: int) -> int
    decreases ts.len() - j,
{
    if j < 0 || j >= ts.len() {
        -1
    } else if tile_id(ts[j]) == id {
        j
    } else {
        find_tile_idx(ts, id, j + 1)
    }
}

/// The focused leaf of a tile: the tile itself for a window, else the
/// focused leaf of the child named at the front of the split's focus
/// order (or the split itself if that child does not resolve).
pub open spec fn focused_leaf_spec(t: Tile) -> u64
    decreases t,
{
    match t {
        Tile::Window(w) => w.id,
        Tile::Split(s) => {
            if s.focus_order@.len() == 0 {
                s.id
            } else {
                let i = find_tile_idx(s.children@, s.focus_order@[0], 0);
                if 0 <= i < s.children@.len() {
                    focused_leaf_spec(s.children@[i])
                } else {
                    s.id
                }
            }
        },
    }
}

/// The focused container of a workspace: the deepest descendant reached
/// by following the front of each focus order, or the workspace itself
/// when it has no children.
pub open spec fn ws_focused_spec(w: Workspace) -> u64 {
    if w.focus_order@.len() == 0 {
        w.id
    } else {
        let i = find_tile_idx(w.children@, w.focus_order@[0], 0);
        if 0 <= i < w.children@.len() {
            focused_leaf_spec(w.children@[i])
        } else {
            w.id
        }
    }
}

/// The position of the first monitor with the given native handle, or -1.
pub open spec fn find_monitor_by_handle(ms: Seq<Monitor>, handle: u64, j: int) -> int
    decreases ms.len() - j,
{
    if j < 0 || j >= ms.len() {
        -1
    } else if ms[j].handle == handle {
        j
    } else {
        find_monitor_by_handle(ms, handle, j + 1)
    }
}

/// The position of the monitor with the given id, or -1.
pub open spec fn find_monitor_idx(ms: Seq<Monitor>, id: u64, j: int) -> int
    decreases ms.len() - j,
{
    if j < 0 || j >= ms.len() {
        -1
    } else if ms[j].id == id {
        j
    } else {
        find_monitor_idx(ms, id, j + 1)
    }
}

/// The position of the workspace with the given id, or -1.
pub open spec fn find_ws_idx(ws: Seq<Workspace>, id: u64, j: int) -> int
    decreases ws.len() - j,
{
    if j < 0 || j >= ws.len() {
        -1
    } else if ws[j].id == id {
        j
    } else {
        find_ws_idx(ws, id, j + 1)
    }
}

/// The WM's focused container: follow the front of every focus order
/// from the root down to a window, or to a workspace without children.
pub open spec fn focused_container_spec(r: RootContainer) -> Option<u64> {
    if r.focus_order@.len() == 0 {
        None
    } else {
        let mi = find_monitor_idx(r.monitors@, r.focus_order@[0], 0);
        if 0 <= mi < r.monitors@.len() {
            let m = r.monitors@[mi];
            if m.focus_order@.len() == 0 {
                None
            } else {
                let wi = find_ws_idx(m.workspaces@, m.focus_order@[0], 0);
                if 0 <= wi < m.workspaces@.len() {
                    Some(ws_focused_spec(m.workspaces@[wi]))
                } else {
                    None
                }
            }
        } else {
            None
        }
    }
}

/// Find a tile's position by id, as executable code.
pub fn find_tile_position(children: &Vec<Tile>, id: u64) -> (r: Option<usize>)
    ensures
        match r {
            Some(i) => i < children@.len() && find_tile_idx(children@, id, 0) == i as int
                && tile_id(children@[i as int]) == id,
            None => find_tile_idx(children@, id, 0) == -1 && forall|k: int|
                0 <= k < children@.len() ==> tile_id(#[trigger] children@[k]) != id,
        },
{
    let n = children.len();
    let mut j: usize = 0;
    while j < n
        invariant
            j <= n == children@.len(),
            find_tile_idx(children@, id, 0) == find_tile_idx(children@, id, j as int),
            forall|k: int| 0 <= k < j ==> tile_id(#[trigger] children@[k]) != id,
        decreases n - j,
    {
        let tid = children[j].id();
        if tid == id {
            return Some(j);
        }
        j = j + 1;
    }
    None
}

/// The focused leaf of a tile, as executable code.
pub(crate) fn focused_leaf(t: &Tile) -> (r: u64)
    ensures
        r == focused_leaf_spec(*t),
    decreases *t,
{
    match t {
        Tile::Window(w) => w.id,
        Tile::Split(s) => {
            if s.focus_order.len() == 0 {
                s.id
            } else {
                let front = s.focus_order[0];
                let hit = find_tile_position(&s.children, front);
                match hit {
                    Some(i) => focused_leaf(&s.children[i]),
                    None => s.id,
                }
            }
        },
    }
}

impl WmState {
    /// The currently focused container: a window, or a workspace without
    /// any windows. Computed by walking the front of each focus order
    /// from the root.
    #[verifier::loop_isolation(false)]
    pub fn focused_container(&self) -> (r: Option<u64>)
        ensures
            r == focused_container_spec(self.root_container),
    {
        if self.root_container.focus_order.len() == 0 {
            return None;
        }
        let front = self.root_container.focus_order[0];
        let n = self.root_container.monitors.len();
        let mut mi: usize = 0;
        while mi < n
            invariant
                mi <= n == self.root_container.monitors@.len(),
                find_monitor_idx(self.root_container.monitors@, front, 0) == find_monitor_idx(
                    self.root_container.monitors@,
                    front,
                    mi as int,
                ),
            decreases n - mi,
        {
            if self.root_container.monitors[mi].id == front {
                let m = &self.root_container.monitors[mi];
                if m.focus_order.len() == 0 {
                    return None;
                }
                let wfront = m.focus_order[0];
                let k = m.workspaces.len();
                let mut wi: usize = 0;
                while wi < k
                    invariant
                        wi <= k == m.workspaces@.len(),
                        find_ws_idx(m.workspaces@, wfront, 0) == find_ws_idx(
                            m.workspaces@,
                            wfront,
                            wi as int,
                        ),
                    decreases k - wi,
                {
                    if m.workspaces[wi].id == wfront {
                        let w = &m.workspaces[wi];
                        if w.focus_order.len() == 0 {
                            return Some(w.id);
                        }
                        let cfront = w.focus_order[0];
                        let hit = find_tile_position(&w.children, cfront);
                        match hit {
                            Some(ci) => {
                                return Some(focused_leaf(&w.children[ci]));
                            },
                            None => {
                                return Some(w.id);
                            },
                        }
                    }
                    wi = wi + 1;
                }
                return None;
            }
            mi = mi + 1;
        }
        None
    }

    /// Whether the focused container is tiling or floating: floating
    /// exactly when it is a window in a non-tiling layout state.
    pub fn focus_mode(&self) -> (r: Option<FocusMode>)
        ensures
            r == focus_mode_spec(*self),
    {
        let focused = self.focused_container();
        match focused {
            None => None,
            Some(id) => {
                let win = self.window_by_id(id);
                match win {
                    Some(e) => {
                        if matches!(e.state, WindowState::Tiling) {
                            Some(FocusMode::Tiling)
                        } else {
                            Some(FocusMode::Floating)
                        }
                    },
                    None => Some(FocusMode::Tiling),
                }
            },
        }
    }
}

/// The kind of container an id resolves to.
#[derive(Clone, Copy, Debug, PartialEq, Eq, Structural)]
pub enum ContainerKind {
    Monitor,
    Workspace,
    Split,
    Window,
}

/// Whether a tile's subtree holds a tile (split or window) with the id.
pub open spec fn tile_has_id(t: Tile, id: u64) -> bool
    decreases t,
{
    tile_id(t) == id || (match t {
        Tile::Split(s) => tiles_have_id(s.children@, id),
        Tile::Window(_) => false,
    })
}

/// Whether a sibling group's subtrees hold a tile with the id.
pub open spec fn tiles_have_id(ts: Seq<Tile>, id: u64) -> bool
    decreases ts,
{
    if ts.len() == 0 {
        false
    } else {
        tiles_have_id(ts.drop_last(), id) || tile_has_id(ts.last(), id)
    }
}

/// Whether any workspace subtree of the tree holds a tile with the id.
pub open spec fn tree_has_tile_id(ms: Seq<Monitor>, id: u64) -> bool
    decreases ms,
{
    if ms.len() == 0 {
        false
    } else {
        tree_has_tile_id(ms.drop_last(), id) || monitor_has_tile_id(ms.last(), id)
    }
}

/// Whether some workspace of the monitor holds a tile with the id.
pub open spec fn monitor_has_tile_id(m: Monitor, id: u64) -> bool {
    exists|wi: int|
        0 <= wi < m.workspaces@.len() && tiles_have_id(
            (#[trigger] m.workspaces@[wi]).children@,
            id,
        )
}

proof fn lemma_tiles_have_id_take_succ(ts: Seq<Tile>, id: u64, i: int)
    requires
        0 <= i < ts.len(),
    ensures
        tiles_have_id(ts.take(i + 1), id) == (tiles_have_id(ts.take(i), id) || tile_has_id(
            ts[i],
            id,
        )),
{
    assert(ts.take(i + 1).drop_last() =~= ts.take(i));
    assert(ts.take(i + 1).last() == ts[i]);
}

/// Whether the tile's subtree holds the id, as executable code.
#[verifier::loop_isolation(false)]
fn tile_search_id(t: &Tile, id: u64) -> (r: bool)
    ensures
        r == tile_has_id(*t, id),
    decreases t,
{
    let tid = t.id();
    if tid == id {
        return true;
    }
    match t {
        Tile::Window(_) => false,
        Tile::Split(s) => {
            let n = s.children.len();
            let mut j: usize = 0;
            let mut found = false;
            while j < n && !found
                invariant
                    j <= n == s.children@.len(),
                    !found ==> !tiles_have_id(s.children@.take(j as int), id),
                    found ==> tiles_have_id(s.children@, id),
                decreases n - j, (if found {
                    0int
                } else {
                    1int
                }),
            {
                proof {
                    lemma_tiles_have_id_take_succ(s.children@, id, j as int);
                }
                if tile_search_id(&s.children[j], id) {
                    proof {
                        lemma_tiles_have_id_mono(s.children@, id, j as int + 1);
                    }
                    found = true;
                } else {
                    j = j + 1;
                }
            }
            proof {
                if !found {
                    assert(s.children@.take(n as int) =~= s.children@);
                }
            }
            found
        },
    }
}

/// One monitor holding the id means the tree holds it.
proof fn lemma_tree_has_tile_mono(ms: Seq<Monitor>, id: u64, i: int)
    requires
        0 <= i < ms.len(),
        monitor_has_tile_id(ms[i], id),
    ensures
        tree_has_tile_id(ms, id),
    decreases ms.len(),
{
    if i == ms.len() - 1 {
        assert(ms.last() == ms[i]);
    } else {
        assert(ms.drop_last()[i] == ms[i]);
        lemma_tree_has_tile_mono(ms.drop_last(), id, i);
    }
}

/// A prefix holding the id means the whole group holds it.
proof fn lemma_tiles_have_id_mono(ts: Seq<Tile>, id: u64, j: int)
    requires
        0 <= j <= ts.len(),
        tiles_have_id(ts.take(j), id),
    ensures
        tiles_have_id(ts, id),
    decreases ts.len() - j,
{
    if j < ts.len() {
        lemma_tiles_have_id_take_succ(ts, id, j);
        lemma_tiles_have_id_mono(ts, id, j + 1);
    } else {
        assert(ts.take(j) =~= ts);
    }
}

/// The kind of container an id resolves to in a tree: a monitor, a
/// workspace, a window anywhere in a workspace subtree, or a split
/// container anywhere in a workspace subtree.
pub open spec fn container_kind_spec(ms: Seq<Monitor>, id: u64) -> Option<ContainerKind> {
    if monitor_ids(ms).contains(id) {
        Some(ContainerKind::Monitor)
    } else if all_workspace_ids(ms).contains(id) {
        Some(ContainerKind::Workspace)
    } else if find_entry_by_id(all_window_entries(ms), 0, id) is Some {
        Some(ContainerKind::Window)
    } else if tree_has_tile_id(ms, id) {
        Some(ContainerKind::Split)
    } else {
        None
    }
}

impl WmState {
    /// Resolve a container id to the kind of container carrying it: a
    /// monitor, a workspace, a window anywhere in a workspace subtree,
    /// or a split container anywhere in a workspace subtree.
    #[verifier::loop_isolation(false)]
    pub fn container_by_id(&self, id: u64) -> (r: Option<ContainerKind>)
        ensures
            r == container_kind_spec(self.root_container.monitors@, id),
    {
        let n = self.root_container.monitors.len();
        let mut i: usize = 0;
        while i < n
            invariant
                i <= n,
                forall|q: int|
                    0 <= q < i ==> (#[trigger] self.root_container.monitors@[q]).id != id,
            decreases n - i,
        {
            if self.root_container.monitors[i].id == id {
                proof {
                    assert(monitor_ids(self.root_container.monitors@)[i as int] == id);
                }
                return Some(ContainerKind::Monitor);
            }
            i = i + 1;
        }
        proof {
            assert forall|q: int|
                0 <= q < monitor_ids(self.root_container.monitors@).len() implies (
            #[trigger] monitor_ids(self.root_container.monitors@)[q]) != id by {
                assert(monitor_ids(self.root_container.monitors@)[q]
                    == self.root_container.monitors@[q].id);
            }
        }
        let wss = self.workspaces();
        let wn = wss.len();
        let mut j: usize = 0;
        while j < wn
            invariant
                j <= wn == wss@.len(),
                wss@ == all_workspace_ids(self.root_container.monitors@),
                forall|q: int| 0 <= q < j ==> wss@[q] != id,
            decreases wn - j,
        {
            if wss[j] == id {
                return Some(ContainerKind::Workspace);
            }
            j = j + 1;
        }
        let win = self.window_by_id(id);
        match win {
            Some(_) => Some(ContainerKind::Window),
            None => {
                // A split container somewhere in a workspace subtree.
                let mut mi: usize = 0;
                let mn = self.root_container.monitors.len();
                while mi < mn
                    invariant
                        mi <= mn == self.root_container.monitors@.len(),
                        !tree_has_tile_id(self.root_container.monitors@.take(mi as int), id),
                    decreases mn - mi,
                {
                    proof {
                        assert(self.root_container.monitors@.take(mi as int + 1).drop_last()
                            =~= self.root_container.monitors@.take(mi as int));
                    }
                    let k = self.root_container.monitors[mi].workspaces.len();
                    let mut wi: usize = 0;
                    let mut hit = false;
                    while wi < k && !hit
                        invariant
                            wi <= k,
                            mi < mn,
                            k == self.root_container.monitors@[mi as int].workspaces@.len(),
                            !hit ==> forall|w2: int|
                                0 <= w2 < wi ==> !tiles_have_id(
                                    (#[trigger] self.root_container.monitors@[mi as int].workspaces@[
                                        w2
                                    ]).children@,
                                    id,
                                ),
                            hit ==> monitor_has_tile_id(
                                self.root_container.monitors@[mi as int],
                                id,
                            ),
                        decreases k - wi, (if hit {
                            0int
                        } else {
                            1int
                        }),
                    {
                        let c = self.root_container.monitors[mi].workspaces[wi].children.len();
                        let mut ci: usize = 0;
                        let mut found = false;
                        while ci < c && !found
                            invariant
                                ci <= c,
                                mi < mn,
                                wi < k,
                                c == self.root_container.monitors@[mi as int].workspaces@[
                                    wi as int
                                ].children@.len(),
                                !found ==> !tiles_have_id(
                                    self.root_container.monitors@[mi as int].workspaces@[
                                        wi as int
                                    ].children@.take(ci as int),
                                    id,
                                ),
                                found ==> tiles_have_id(
                                    self.root_container.monitors@[mi as int].workspaces@[
                                        wi as int
                                    ].children@,
                                    id,
                                ),
                            decreases c - ci, (if found {
                                0int
                            } else {
                                1int
                            }),
                        {
                            proof {
                                lemma_tiles_have_id_take_succ(
                                    self.root_container.monitors@[mi as int].workspaces@[
                                        wi as int
                                    ].children@,
                                    id,
                                    ci as int,
                                );
                            }
                            if tile_search_id(
                                &self.root_container.monitors[mi].workspaces[wi].children[ci],
                                id,
                            ) {
                                proof {
                                    lemma_tiles_have_id_mono(
                                        self.root_container.monitors@[mi as int].workspaces@[
                                            wi as int
                                        ].children@,
                                        id,
                                        ci as int + 1,
                                    );
                                }
                                found = true;
                            } else {
                                ci = ci + 1;
                            }
                        }
                        proof {
                            if !found {
                                assert(self.root_container.monitors@[mi as int].workspaces@[
                                    wi as int
                                ].children@.take(c as int) =~= self.root_container.monitors@[
                                    mi as int
                                ].workspaces@[wi as int].children@);
                            }
                        }
                        if found {
                            hit = true;
                        } else {
                            wi = wi + 1;
                        }
                    }
                    if hit {
                        proof {
                            lemma_tree_has_tile_mono(
                                self.root_container.monitors@,
                                id,
                                mi as int,
                            );
                        }
                        return Some(ContainerKind::Split);
                    }
                    mi = mi + 1;
                }
                proof {
                    assert(self.root_container.monitors@.take(mn as int)
                        =~= self.root_container.monitors@);
                }
                None
            },
        }
    }
}

/// One container in a workspace's focus order: its id, and its window
/// state when it is a window (splits carry none).
#[derive(Clone, Copy, Debug)]
pub struct FocusEntry {
    pub id: u64,
    pub window_state: Option<WindowState>,
}

/// The first entry that is a window in exactly the given state.
pub open spec fn first_entry_in_state(es: Seq<FocusEntry>, j: int, st: WindowState) -> Option<u64>
    decreases es.len() - j,
{
    if j < 0 || j >= es.len() {
        None
    } else if es[j].window_state == Some(st) {
        Some(es[j].id)
    } else {
        first_entry_in_state(es, j + 1, st)
    }
}

/// The first entry that is a window not minimized.
pub open spec fn first_entry_not_minimized(es: Seq<FocusEntry>, j: int) -> Option<u64>
    decreases es.len() - j,
{
    if j < 0 || j >= es.len() {
        None
    } else if es[j].window_state is Some && es[j].window_state != Some(WindowState::Minimized) {
        Some(es[j].id)
    } else {
        first_entry_not_minimized(es, j + 1)
    }
}

/// The focus target after removing a window from among these entries
/// (most recently focused first): prefer the first window of the same
/// state kind, then the first non-minimized window, then the first
/// entry of any kind, and finally the workspace itself.
pub open spec fn focus_target_spec(
    es: Seq<FocusEntry>,
    removed_state: WindowState,
    workspace_id: u64,
) -> u64 {
    let same = if removed_state != WindowState::Minimized {
        first_entry_in_state(es, 0, removed_state)
    } else {
        None
    };
    if same is Some {
        same->0
    } else {
        let nonmin = first_entry_not_minimized(es, 0);
        if nonmin is Some {
            nonmin->0
        } else if es.len() > 0 {
            es[0].id
        } else {
            workspace_id
        }
    }
}

/// The descendant focus order of a sibling group, most recently focused
/// first, skipping one id: each id of the focus order that resolves to a
/// member yields the member's entry followed by the entries of its own
/// subtree in its own focus order; windows carry their state, splits
/// none.
pub open spec fn dfo_group(ts: Seq<Tile>, order: Seq<u64>, skip: u64, j: int) -> Seq<FocusEntry>
    decreases ts, order.len() - j,
{
    if j < 0 || j >= order.len() {
        Seq::empty()
    } else {
        let fid = order[j];
        let rest = dfo_group(ts, order, skip, j + 1);
        let i = find_tile_idx(ts, fid, 0);
        if 0 <= i < ts.len() {
            dfo_tile(ts[i], skip) + rest
        } else {
            rest
        }
    }
}

/// The entry of one tile (unless skipped) followed by the descendant
/// focus order of its subtree.
pub open spec fn dfo_tile(t: Tile, skip: u64) -> Seq<FocusEntry>
    decreases t, 0int,
{
    let own: Seq<FocusEntry> = if tile_id(t) == skip {
        Seq::empty()
    } else {
        seq![
            FocusEntry {
                id: tile_id(t),
                window_state: (match t {
                    Tile::Window(w) => Some(w.state),
                    Tile::Split(_) => None,
                }),
            },
        ]
    };
    own + (match t {
        Tile::Split(s) => dfo_group(s.children@, s.focus_order@, skip, 0),
        Tile::Window(_) => Seq::empty(),
    })
}

/// Append a tile's descendant focus order, as executable code.
#[verifier::loop_isolation(false)]
fn push_dfo_tile(t: &Tile, skip: u64, out: &mut Vec<FocusEntry>)
    ensures
        final(out)@ == old(out)@ + dfo_tile(*t, skip),
    decreases t, 0int,
{
    let ghost o0 = out@;
    let tid = t.id();
    if tid != skip {
        let st = match t {
            Tile::Window(w) => Some(w.state),
            Tile::Split(_) => None,
        };
        out.push(FocusEntry { id: tid, window_state: st });
    }
    match t {
        Tile::Window(_) => {
            proof {
                assert(out@ =~= o0 + dfo_tile(*t, skip));
            }
        },
        Tile::Split(s) => {
            push_dfo_group(&s.children, &s.focus_order, skip, out);
            proof {
                assert(out@ =~= o0 + dfo_tile(*t, skip));
            }
        },
    }
}

/// Append a sibling group's descendant focus order, as executable code.
#[verifier::loop_isolation(false)]
fn push_dfo_group(ts: &Vec<Tile>, order: &Vec<u64>, skip: u64, out: &mut Vec<FocusEntry>)
    ensures
        final(out)@ == old(out)@ + dfo_group(ts@, order@, skip, 0),
    decreases ts@, 1int,
{
    let ghost o0 = out@;
    let fl = order.len();
    let mut q: usize = 0;
    while q < fl
        invariant
            q <= fl == order@.len(),
            out@.len() >= o0.len(),
            out@.take(o0.len() as int) == o0,
            dfo_group(ts@, order@, skip, 0) == out@.skip(o0.len() as int) + dfo_group(
                ts@,
                order@,
                skip,
                q as int,
            ),
        decreases fl - q,
    {
        let ghost pre = out@;
        let fid = order[q];
        let pos = find_tile_position(ts, fid);
        match pos {
            Some(i) => {
                push_dfo_tile(&ts[i], skip, out);
                proof {
                    assert(out@.take(o0.len() as int) =~= o0);
                    assert(out@.skip(o0.len() as int) =~= pre.skip(o0.len() as int) + dfo_tile(
                        ts@[i as int],
                        skip,
                    ));
                    assert(out@.skip(o0.len() as int) + dfo_group(ts@, order@, skip, q as int + 1)
                        =~= pre.skip(o0.len() as int) + dfo_group(ts@, order@, skip, q as int));
                }
            },
            None => {},
        }
        q = q + 1;
    }
    proof {
        assert(out@ =~= out@.take(o0.len() as int) + out@.skip(o0.len() as int));
    }
}

/// The focus target after a removal, over an explicit entry list; see
/// [`focus_target_spec`].
#[verifier::loop_isolation(false)]
pub fn select_focus_target(
    entries: &Vec<FocusEntry>,
    removed_state: WindowState,
    workspace_id: u64,
) -> (r: u64)
    ensures
        r == focus_target_spec(entries@, removed_state, workspace_id),
{
    let n = entries.len();
    if removed_state != WindowState::Minimized {
        let mut j: usize = 0;
        while j < n
            invariant
                j <= n,
                first_entry_in_state(entries@, 0, removed_state) == first_entry_in_state(
                    entries@,
                    j as int,
                    removed_state,
                ),
            decreases n - j,
        {
            match entries[j].window_state {
                Some(st) => {
                    if st == removed_state {
                        return entries[j].id;
                    }
                },
                None => {},
            }
            j = j + 1;
        }
    }
    let mut j2: usize = 0;
    while j2 < n
        invariant
            j2 <= n,
            removed_state != WindowState::Minimized ==> first_entry_in_state(
                entries@,
                0,
                removed_state,
            ) is None,
            first_entry_not_minimized(entries@, 0) == first_entry_not_minimized(
                entries@,
                j2 as int,
            ),
        decreases n - j2,
    {
        match entries[j2].window_state {
            Some(st) => {
                if st != WindowState::Minimized {
                    return entries[j2].id;
                }
            },
            None => {},
        }
        j2 = j2 + 1;
    }
    if n > 0 {
        entries[0].id
    } else {
        workspace_id
    }
}

impl WmState {
    /// Add a monitor, with one workspace from the given configuration.
    pub fn add_monitor(&mut self, spec: MonitorSpec) -> (r: Result<(), WmError>)
        requires
            wm_wf(*old(self)),
            rect_wf(spec.rect),
            rect_wf(spec.working_rect),
            spec.scale_pct <= MAX_SCALE_PCT,
            old(self).next_id + 2 < u64::MAX,
        ensures
            wm_wf(*final(self)),
            r is Ok,
            final(self).root_container.monitors@.len() == old(self).root_container.monitors@.len()
                + 1,
            final(self).next_id == old(self).next_id + 2,
            final(self).root_container.monitors@.take(
                old(self).root_container.monitors@.len() as int,
            ) == old(self).root_container.monitors@,
            ({
                let m = final(self).root_container.monitors@.last();
                &&& m.handle == spec.handle
                &&& m.rect == spec.rect
                &&& m.working_rect == spec.working_rect
                &&& m.scale_pct == spec.scale_pct
                &&& m.id == (old(self).next_id + 1) as u64
                &&& m.workspaces@.len() == 1
                &&& m.workspaces@[0].id == old(self).next_id
                &&& m.workspaces@[0].config == spec.workspace_config
                &&& m.workspaces@[0].children@ == Seq::<Tile>::empty()
                &&& m.focus_order@ == seq![old(self).next_id]
            }),
            final(self).root_container.focus_order@ == old(
                self,
            ).root_container.focus_order@.push((old(self).next_id + 1) as u64),
            final(self).containers_to_redraw@ == old(self).containers_to_redraw@,
            final(self).pending_events@ == old(self).pending_events@,
            final(self).has_pending_focus_sync == old(self).has_pending_focus_sync,
            final(self).unmanaged_or_minimized_timestamp == old(
                self,
            ).unmanaged_or_minimized_timestamp,
    {
        broadcast use vstd::seq_lib::group_to_multiset_ensures;

        let ws_id = self.next_id;
        let mon_id = self.next_id + 1;
        self.next_id = self.next_id + 2;
        let gaps = GapsConfig {
            outer_gap: crate::geometry::RectDelta {
                left: crate::geometry::LengthUnit::Px(0),
                top: crate::geometry::LengthUnit::Px(0),
                right: crate::geometry::LengthUnit::Px(0),
                bottom: crate::geometry::LengthUnit::Px(0),
            },
            scale_with_dpi: false,
        };
        let ws = Workspace::new(ws_id, spec.workspace_config, gaps, TilingDirection::Horizontal);
        let mut workspaces: Vec<Workspace> = Vec::new();
        let mut ws_order: Vec<u64> = Vec::new();
        workspaces.push(ws);
        ws_order.push(ws_id);
        let m = Monitor {
            id: mon_id,
            handle: spec.handle,
            rect: spec.rect,
            working_rect: spec.working_rect,
            scale_pct: spec.scale_pct,
            workspaces,
            focus_order: ws_order,
        };
        proof {
            assert(workspace_ids(m.workspaces@) =~= seq![ws_id]);
            assert(m.focus_order@ =~= seq![ws_id]);
            assert(monitor_wf(m));
        }
        let ghost ms0 = self.root_container.monitors@;
        self.root_container.monitors.push(m);
        self.root_container.focus_order.push(mon_id);
        proof {
            assert(monitor_ids(self.root_container.monitors@) =~= monitor_ids(ms0).push(mon_id));
            assert(self.root_container.focus_order@.to_multiset() =~= monitor_ids(
                self.root_container.monitors@,
            ).to_multiset());
        }
        Ok(())
    }

    /// Record the WM's focus on the given top-level window: its id is
    /// promoted to the front of its workspace's focus order, the
    /// workspace to the front of its monitor's, and the monitor to the
    /// front of the root's. True exactly when some workspace has a
    /// direct child with the id.
    #[verifier::loop_isolation(false)]
    pub fn set_focused_descendant(&mut self, window_id: u64) -> (r: bool)
        requires
            wm_wf(*old(self)),
        ensures
            wm_wf(*final(self)),
            !r ==> *final(self) == *old(self),
            r <==> exists|mi: int, wi: int, ci: int|
                #[trigger] tile_with_id_at(old(self).root_container.monitors@, mi, wi, ci, window_id),
            r ==> exists|mi: int, wi: int|
                #![trigger old(self).root_container.monitors@[mi].workspaces@[wi]]
                {
                    let ms0 = old(self).root_container.monitors@;
                    let msf = final(self).root_container.monitors@;
                    &&& 0 <= mi < ms0.len()
                    &&& 0 <= wi < ms0[mi].workspaces@.len()
                    &&& msf.len() == ms0.len()
                    &&& final(self).root_container.focus_order@.len() > 0
                    &&& final(self).root_container.focus_order@[0] == ms0[mi].id
                    &&& msf[mi].focus_order@.len() > 0
                    &&& msf[mi].focus_order@[0] == ms0[mi].workspaces@[wi].id
                    &&& msf[mi].workspaces@.len() == ms0[mi].workspaces@.len()
                    &&& msf[mi].workspaces@[wi].focus_order@.len() > 0
                    &&& msf[mi].workspaces@[wi].focus_order@[0] == window_id
                    &&& forall|m2: int| 0 <= m2 < ms0.len() && m2 != mi ==> msf[m2] == ms0[m2]
                    &&& forall|w2: int|
                        0 <= w2 < ms0[mi].workspaces@.len() && w2 != wi ==> msf[mi].workspaces@[w2]
                            == ms0[mi].workspaces@[w2]
                    &&& forall|w2: int|
                        0 <= w2 < ms0[mi].workspaces@.len() ==> (#[trigger] msf[mi].workspaces@[
                            w2
                        ]).children@ == ms0[mi].workspaces@[w2].children@
                },
            final(self).containers_to_redraw@ == old(self).containers_to_redraw@,
            final(self).pending_events@ == old(self).pending_events@,
            final(self).has_pending_focus_sync == old(self).has_pending_focus_sync,
            final(self).next_id == old(self).next_id,
            final(self).binding_modes@ == old(self).binding_modes@,
            final(self).active_border_window == old(self).active_border_window,
            final(self).unmanaged_or_minimized_timestamp == old(
                self,
            ).unmanaged_or_minimized_timestamp,
            same_skeleton(
                old(self).root_container.monitors@,
                final(self).root_container.monitors@,
            ),
            all_window_entries(final(self).root_container.monitors@) == all_window_entries(
                old(self).root_container.monitors@,
            ),
    {
        broadcast use vstd::seq_lib::group_to_multiset_ensures;

        let n = self.root_container.monitors.len();
        let mut mi: usize = 0;
        while mi < n
            invariant
                mi <= n,
                n == self.root_container.monitors@.len(),
                *self == *old(self),
                forall|m2: int, w2: int, c2: int|
                    m2 < mi && #[trigger] tile_with_id_at(
                        old(self).root_container.monitors@,
                        m2,
                        w2,
                        c2,
                        window_id,
                    ) ==> false,
            decreases n - mi,
        {
            let k = self.root_container.monitors[mi].workspaces.len();
            let mut wi: usize = 0;
            while wi < k
                invariant
                    wi <= k,
                    mi < n,
                    k == self.root_container.monitors@[mi as int].workspaces@.len(),
                    *self == *old(self),
                    forall|m2: int, w2: int, c2: int|
                        m2 < mi && #[trigger] tile_with_id_at(
                            old(self).root_container.monitors@,
                            m2,
                            w2,
                            c2,
                            window_id,
                        ) ==> false,
                    forall|w2: int, c2: int|
                        w2 < wi && #[trigger] tile_with_id_at(
                            old(self).root_container.monitors@,
                            mi as int,
                            w2,
                            c2,
                            window_id,
                        ) ==> false,
                decreases k - wi,
            {
                let hit = find_tile_position(
                    &self.root_container.monitors[mi].workspaces[wi].children,
                    window_id,
                );
                match hit {
                    Some(ci) => {
                        let ghost m0 = self.root_container.monitors@[mi as int];
                        let ghost w0 = m0.workspaces@[wi as int];
                        let mon_id = self.root_container.monitors[mi].id;
                        let ws_id = self.root_container.monitors[mi].workspaces[wi].id;
                        proof {
                            crate::ops::lemma_ids_of_index(w0.children@, ci as int);
                            assert(ids_of(w0.children@).contains(window_id));
                            assert(w0.focus_order@.to_multiset().count(window_id) > 0);
                            assert(w0.focus_order@.contains(window_id));
                            assert(workspace_ids(m0.workspaces@)[wi as int] == ws_id);
                            assert(workspace_ids(m0.workspaces@).contains(ws_id));
                            assert(m0.focus_order@.to_multiset().count(ws_id) > 0);
                            assert(m0.focus_order@.contains(ws_id));
                            assert(monitor_ids(self.root_container.monitors@)[mi as int]
                                == mon_id);
                            assert(monitor_ids(self.root_container.monitors@).contains(mon_id));
                            assert(self.root_container.focus_order@.to_multiset().count(mon_id)
                                > 0);
                            assert(self.root_container.focus_order@.contains(mon_id));
                        }
                        promote_focus(
                            &mut self.root_container.monitors[mi].workspaces[wi].focus_order,
                            window_id,
                        );
                        promote_focus(&mut self.root_container.monitors[mi].focus_order, ws_id);
                        promote_focus(&mut self.root_container.focus_order, mon_id);
                        proof {
                            let msf = self.root_container.monitors@;
                            assert(workspace_ids(msf[mi as int].workspaces@) =~= workspace_ids(
                                m0.workspaces@,
                            ));
                            assert(monitor_ids(msf) =~= monitor_ids(old(
                                self,
                            ).root_container.monitors@));
                            assert forall|q: int|
                                0 <= q < msf.len() implies monitor_wf(#[trigger] msf[q]) by {
                                if q != mi {
                                    assert(msf[q] == old(self).root_container.monitors@[q]);
                                } else {
                                    assert forall|p: int|
                                        0 <= p < msf[q].workspaces@.len() implies workspace_wf(
                                        #[trigger] msf[q].workspaces@[p],
                                    ) by {
                                        if p != wi {
                                            assert(msf[q].workspaces@[p] == m0.workspaces@[p]);
                                        }
                                    }
                                }
                            }
                            assert(tile_with_id_at(
                                old(self).root_container.monitors@,
                                mi as int,
                                wi as int,
                                ci as int,
                                window_id,
                            ));
                            assert forall|w2: int|
                                0 <= w2 < m0.workspaces@.len() implies (#[trigger] msf[
                                mi as int
                            ].workspaces@[w2]).children@ == m0.workspaces@[w2].children@ by {
                                if w2 != wi {
                                    assert(msf[mi as int].workspaces@[w2] == m0.workspaces@[w2]);
                                }
                            }
                            let ms_old = old(self).root_container.monitors@;
                            assert forall|i2: int, w2: int|
                                0 <= i2 < ms_old.len() && 0 <= w2 < ms_old[i2].workspaces@.len()
                                implies (#[trigger] ms_old[i2].workspaces@[w2]).children@ == msf[
                                i2
                            ].workspaces@[w2].children@ by {
                                if i2 != mi {
                                    assert(msf[i2] == ms_old[i2]);
                                }
                            }
                            lemma_all_entries_congruent(ms_old, msf);
                        }
                        return true;
                    },
                    None => {},
                }
                wi = wi + 1;
            }
            mi = mi + 1;
        }
        false
    }

    /// The container to focus after the given window is unmanaged,
    /// minimized or moved away: none when it is not the focused
    /// container, else the best match among the other containers of its
    /// workspace in focus order (see [`focus_target_spec`]).
    #[verifier::loop_isolation(false)]
    pub fn focus_target_after_removal(&self, removed_id: u64) -> (r: Option<u64>)
        requires
            wm_wf(*self),
        ensures
            focused_container_spec(self.root_container) != Some(removed_id) ==> r is None,
            focused_container_spec(self.root_container) == Some(removed_id) ==> match r {
                Some(target) => exists|mi: int, wi: int|
                    #![trigger self.root_container.monitors@[mi].workspaces@[wi]]
                    {
                        let ws = self.root_container.monitors@[mi].workspaces@[wi];
                        &&& 0 <= mi < self.root_container.monitors@.len()
                        &&& 0 <= wi < self.root_container.monitors@[mi].workspaces@.len()
                        &&& find_entry_by_id(ws_window_entries(ws), 0, removed_id) is Some
                        &&& target == focus_target_spec(
                            dfo_group(ws.children@, ws.focus_order@, removed_id, 0),
                            find_entry_by_id(ws_window_entries(ws), 0, removed_id)->0.state,
                            ws.id,
                        )
                    },
                None => forall|mi: int, wi: int|
                    0 <= mi < self.root_container.monitors@.len() && 0 <= wi
                        < self.root_container.monitors@[mi].workspaces@.len()
                        ==> find_entry_by_id(
                        ws_window_entries(#[trigger] self.root_container.monitors@[mi].workspaces@[wi]),
                        0,
                        removed_id,
                    ) is None,
            },
    {
        let focused = self.focused_container();
        let is_focused = match focused {
            Some(f) => f == removed_id,
            None => false,
        };
        if !is_focused {
            return None;
        }
        let n = self.root_container.monitors.len();
        let mut mi: usize = 0;
        while mi < n
            invariant
                mi <= n,
                n == self.root_container.monitors@.len(),
                forall|m2: int, w2: int|
                    0 <= m2 < mi && 0 <= w2
                        < self.root_container.monitors@[m2].workspaces@.len()
                        ==> find_entry_by_id(
                        ws_window_entries(
                            #[trigger] self.root_container.monitors@[m2].workspaces@[w2],
                        ),
                        0,
                        removed_id,
                    ) is None,
            decreases n - mi,
        {
            let k = self.root_container.monitors[mi].workspaces.len();
            let mut wi: usize = 0;
            while wi < k
                invariant
                    wi <= k,
                    mi < n,
                    k == self.root_container.monitors@[mi as int].workspaces@.len(),
                    forall|m2: int, w2: int|
                        0 <= m2 < mi && 0 <= w2
                            < self.root_container.monitors@[m2].workspaces@.len()
                            ==> find_entry_by_id(
                            ws_window_entries(
                                #[trigger] self.root_container.monitors@[m2].workspaces@[w2],
                            ),
                            0,
                            removed_id,
                        ) is None,
                    forall|w2: int|
                        0 <= w2 < wi ==> find_entry_by_id(
                            ws_window_entries(
                                #[trigger] self.root_container.monitors@[mi as int].workspaces@[
                                    w2
                                ],
                            ),
                            0,
                            removed_id,
                        ) is None,
                decreases k - wi,
            {
                let ws = &self.root_container.monitors[mi].workspaces[wi];
                // Every window of this workspace's subtree, in order.
                let mut entries: Vec<WindowEntry> = Vec::new();
                let cn = ws.children.len();
                let mut ci: usize = 0;
                while ci < cn
                    invariant
                        ci <= cn,
                        mi < n,
                        wi < k,
                        ws == &self.root_container.monitors@[mi as int].workspaces@[wi as int],
                        cn == ws.children@.len(),
                        entries@ == ws_window_entries_upto(*ws, ci as int),
                    decreases cn - ci,
                {
                    proof {
                        lemma_ws_win_entries_take_succ(*ws, ci as int);
                    }
                    collect_tile_entries(&ws.children[ci], &mut entries);
                    ci = ci + 1;
                }
                // First entry carrying the removed id, if any.
                let en = entries.len();
                let mut ei: usize = 0;
                let mut removed_entry: Option<WindowEntry> = None;
                while ei < en
                    invariant
                        ei <= en == entries@.len(),
                        removed_entry is None,
                        find_entry_by_id(entries@, 0, removed_id) == find_entry_by_id(
                            entries@,
                            ei as int,
                            removed_id,
                        ),
                    decreases en - ei,
                {
                    if entries[ei].id == removed_id {
                        removed_entry = Some(entries[ei]);
                        break ;
                    }
                    ei = ei + 1;
                }
                match removed_entry {
                    Some(re) => {
                        // Descendant focus order of the workspace,
                        // without the removed window.
                        let mut dfo: Vec<FocusEntry> = Vec::new();
                        push_dfo_group(&ws.children, &ws.focus_order, removed_id, &mut dfo);
                        let ws_id = ws.id;
                        let removed_state = re.state;
                        proof {
                            assert(entries@ == ws_window_entries(*ws)) by {
                                assert(ws.children@.take(cn as int) =~= ws.children@);
                            }
                            assert(find_entry_by_id(ws_window_entries(*ws), 0, removed_id)
                                == Some(re));
                        }
                        return Some(select_focus_target(&dfo, removed_state, ws_id));
                    },
                    None => {
                        proof {
                            assert(entries@ == ws_window_entries(*ws)) by {
                                assert(ws.children@.take(cn as int) =~= ws.children@);
                            }
                        }
                    },
                }
                wi = wi + 1;
            }
            mi = mi + 1;
        }
        None
    }

    /// Resize the tiling container with the given id (a top-level child
    /// of its workspace) by `delta` fixed-point units; the delta is
    /// clamped to the siblings' headroom and the group keeps sharing the
    /// axis exactly. Resizing an only child is a no-op.
    #[verifier::loop_isolation(false)]
    pub fn resize_tiling_container(&mut self, container_id: u64, delta: i64) -> (r: bool)
        requires
            wm_wf(*old(self)),
        ensures
            wm_wf(*final(self)),
            !r ==> *final(self) == *old(self),
            r <==> exists|mi: int, wi: int, ci: int|
                #[trigger] tiling_tile_at(
                    old(self).root_container.monitors@,
                    mi,
                    wi,
                    ci,
                    container_id,
                ),
            r ==> exists|mi: int, wi: int, ci: int|
                #![trigger old(self).root_container.monitors@[mi].workspaces@[wi].children@[ci]]
                {
                    let ms0 = old(self).root_container.monitors@;
                    let msf = final(self).root_container.monitors@;
                    &&& tiling_tile_at(ms0, mi, wi, ci, container_id)
                    &&& msf.len() == ms0.len()
                    &&& crate::ops::resize_group_post(
                        ms0[mi].workspaces@[wi].children@,
                        msf[mi].workspaces@[wi].children@,
                        ci,
                        delta as int,
                    )
                    &&& forall|m2: int| 0 <= m2 < ms0.len() && m2 != mi ==> msf[m2] == ms0[m2]
                    &&& msf[mi].workspaces@.len() == ms0[mi].workspaces@.len()
                    &&& forall|w2: int|
                        0 <= w2 < ms0[mi].workspaces@.len() && w2 != wi ==> msf[mi].workspaces@[w2]
                            == ms0[mi].workspaces@[w2]
                    &&& msf[mi].workspaces@[wi].id == ms0[mi].workspaces@[wi].id
                    &&& msf[mi].workspaces@[wi].focus_order@ == ms0[mi].workspaces@[
                        wi
                    ].focus_order@
                    &&& msf[mi].workspaces@[wi].gaps_config == ms0[mi].workspaces@[wi].gaps_config
                    &&& msf[mi].workspaces@[wi].tiling_direction == ms0[mi].workspaces@[
                        wi
                    ].tiling_direction
                    &&& msf[mi].focus_order@ == ms0[mi].focus_order@
                },
            final(self).root_container.focus_order@ == old(self).root_container.focus_order@,
            final(self).unmanaged_or_minimized_timestamp == old(
                self,
            ).unmanaged_or_minimized_timestamp,
            final(self).containers_to_redraw@ == old(self).containers_to_redraw@,
            final(self).pending_events@ == old(self).pending_events@,
            final(self).has_pending_focus_sync == old(self).has_pending_focus_sync,
            final(self).next_id == old(self).next_id,
            final(self).binding_modes@ == old(self).binding_modes@,
            final(self).active_border_window == old(self).active_border_window,
            same_skeleton(
                old(self).root_container.monitors@,
                final(self).root_container.monitors@,
            ),
    {
        let n = self.root_container.monitors.len();
        let mut mi: usize = 0;
        while mi < n
            invariant
                mi <= n,
                n == self.root_container.monitors@.len(),
                *self == *old(self),
                forall|m2: int, w2: int, c2: int|
                    m2 < mi && #[trigger] tiling_tile_at(
                        old(self).root_container.monitors@,
                        m2,
                        w2,
                        c2,
                        container_id,
                    ) ==> false,
            decreases n - mi,
        {
            let k = self.root_container.monitors[mi].workspaces.len();
            let mut wi: usize = 0;
            while wi < k
                invariant
                    wi <= k,
                    mi < n,
                    k == self.root_container.monitors@[mi as int].workspaces@.len(),
                    *self == *old(self),
                    forall|m2: int, w2: int, c2: int|
                        m2 < mi && #[trigger] tiling_tile_at(
                            old(self).root_container.monitors@,
                            m2,
                            w2,
                            c2,
                            container_id,
                        ) ==> false,
                    forall|w2: int, c2: int|
                        w2 < wi && #[trigger] tiling_tile_at(
                            old(self).root_container.monitors@,
                            mi as int,
                            w2,
                            c2,
                            container_id,
                        ) ==> false,
                decreases k - wi,
            {
                let c = self.root_container.monitors[mi].workspaces[wi].children.len();
                let mut ci: usize = 0;
                let mut found = false;
                while ci < c && !found
                    invariant
                        ci <= c,
                        mi < n,
                        wi < k,
                        c == self.root_container.monitors@[mi as int].workspaces@[
                            wi as int
                        ].children@.len(),
                        *self == *old(self),
                        !found ==> forall|c2: int|
                            c2 < ci && #[trigger] tiling_tile_at(
                                old(self).root_container.monitors@,
                                mi as int,
                                wi as int,
                                c2,
                                container_id,
                            ) ==> false,
                        found ==> tiling_tile_at(
                            old(self).root_container.monitors@,
                            mi as int,
                            wi as int,
                            ci as int,
                            container_id,
                        ),
                    decreases c - ci, (if found { 0int } else { 1int }),
                {
                    let tid = self.root_container.monitors[mi].workspaces[wi].children[ci].id();
                    let til = self.root_container.monitors[mi].workspaces[wi].children[
                        ci
                    ].is_tiling();
                    if tid == container_id && til {
                        found = true;
                    } else {
                        ci = ci + 1;
                    }
                }
                if found {
                    let ghost m0 = self.root_container.monitors@[mi as int];
                    let ghost w0 = m0.workspaces@[wi as int];
                    crate::ops::resize_tile_in_group(
                        &mut self.root_container.monitors[mi].workspaces[wi].children,
                        ci,
                        delta,
                    );
                    proof {
                        let msf = self.root_container.monitors@;
                        assert(workspace_ids(msf[mi as int].workspaces@) =~= workspace_ids(
                            m0.workspaces@,
                        ));
                        assert(monitor_ids(msf) =~= monitor_ids(old(
                            self,
                        ).root_container.monitors@));
                        assert forall|p: int|
                            0 <= p < msf.len() implies monitor_wf(#[trigger] msf[p]) by {
                            if p != mi {
                                assert(msf[p] == old(self).root_container.monitors@[p]);
                            } else {
                                assert forall|p2: int|
                                    0 <= p2 < msf[p].workspaces@.len() implies workspace_wf(
                                    #[trigger] msf[p].workspaces@[p2],
                                ) by {
                                    if p2 != wi {
                                        assert(msf[p].workspaces@[p2] == m0.workspaces@[p2]);
                                    } else {
                                        assert(ids_of(msf[p].workspaces@[p2].children@) == ids_of(
                                            w0.children@,
                                        ));
                                    }
                                }
                            }
                        }
                    }
                    return true;
                }
                wi = wi + 1;
            }
            mi = mi + 1;
        }
        false
    }

    /// Drive the window with the given id into a new state, wherever its
    /// workspace is.
    #[verifier::loop_isolation(false)]
    pub fn update_window_state(&mut self, window_id: u64, new_state: WindowState) -> (r: Result<
        (),
        WmError,
    >)
        requires
            wm_wf(*old(self)),
        ensures
            wm_wf(*final(self)),
            r == Err::<(), WmError>(WmError::WindowNotManaged) ==> *final(self) == *old(self),
            r == Err::<(), WmError>(WmError::WindowNotManaged) <==> !(exists|
                mi: int,
                wi: int,
                ci: int,
            |
                #[trigger] window_with_id_at(
                    old(self).root_container.monitors@,
                    mi,
                    wi,
                    ci,
                    window_id,
                )),
            (exists|mi: int, wi: int, ci: int|
                #[trigger] window_with_id_at(
                    old(self).root_container.monitors@,
                    mi,
                    wi,
                    ci,
                    window_id,
                )) && (new_state == WindowState::Floating || new_state == WindowState::Minimized)
                ==> r is Ok,
            r is Ok ==> exists|mi: int, wi: int|
                #![trigger old(self).root_container.monitors@[mi].workspaces@[wi]]
                {
                    let ms0 = old(self).root_container.monitors@;
                    let msf = final(self).root_container.monitors@;
                    &&& 0 <= mi < ms0.len()
                    &&& 0 <= wi < ms0[mi].workspaces@.len()
                    &&& msf.len() == ms0.len()
                    &&& crate::workspace::update_state_post(
                        ms0[mi].workspaces@[wi],
                        msf[mi].workspaces@[wi],
                        window_id,
                        new_state,
                    )
                    &&& forall|m2: int| 0 <= m2 < ms0.len() && m2 != mi ==> msf[m2] == ms0[m2]
                    &&& msf[mi].workspaces@.len() == ms0[mi].workspaces@.len()
                    &&& forall|w2: int|
                        0 <= w2 < ms0[mi].workspaces@.len() && w2 != wi ==> msf[mi].workspaces@[w2]
                            == ms0[mi].workspaces@[w2]
                },
            final(self).containers_to_redraw@ == old(self).containers_to_redraw@,
            final(self).pending_events@ == old(self).pending_events@,
            final(self).has_pending_focus_sync == old(self).has_pending_focus_sync,
            final(self).next_id == old(self).next_id,
            final(self).binding_modes@ == old(self).binding_modes@,
            final(self).active_border_window == old(self).active_border_window,
            final(self).unmanaged_or_minimized_timestamp == old(
                self,
            ).unmanaged_or_minimized_timestamp,
            same_skeleton(
                old(self).root_container.monitors@,
                final(self).root_container.monitors@,
            ),
    {
        let n = self.root_container.monitors.len();
        let mut mi: usize = 0;
        while mi < n
            invariant
                mi <= n,
                n == self.root_container.monitors@.len(),
                *self == *old(self),
                forall|m2: int, w2: int, c2: int|
                    m2 < mi && #[trigger] window_with_id_at(
                        old(self).root_container.monitors@,
                        m2,
                        w2,
                        c2,
                        window_id,
                    ) ==> false,
            decreases n - mi,
        {
            let k = self.root_container.monitors[mi].workspaces.len();
            let mut wi: usize = 0;
            while wi < k
                invariant
                    wi <= k,
                    mi < n,
                    k == self.root_container.monitors@[mi as int].workspaces@.len(),
                    *self == *old(self),
                    forall|m2: int, w2: int, c2: int|
                        m2 < mi && #[trigger] window_with_id_at(
                            old(self).root_container.monitors@,
                            m2,
                            w2,
                            c2,
                            window_id,
                        ) ==> false,
                    forall|w2: int, c2: int|
                        w2 < wi && #[trigger] window_with_id_at(
                            old(self).root_container.monitors@,
                            mi as int,
                            w2,
                            c2,
                            window_id,
                        ) ==> false,
                decreases k - wi,
            {
                let hit = self.root_container.monitors[mi].workspaces[wi].find_window(window_id);
                match hit {
                    Some(_ci) => {
                        let ghost m0 = self.root_container.monitors@[mi as int];
                        let ghost w0 = m0.workspaces@[wi as int];
                        let res = self.root_container.monitors[mi].workspaces[
                            wi
                        ].update_window_state(window_id, new_state);
                        proof {
                            let msf = self.root_container.monitors@;
                            assert(workspace_ids(msf[mi as int].workspaces@) =~= workspace_ids(
                                m0.workspaces@,
                            ));
                            assert(monitor_ids(msf) =~= monitor_ids(old(
                                self,
                            ).root_container.monitors@));
                            assert forall|p: int|
                                0 <= p < msf.len() implies monitor_wf(#[trigger] msf[p]) by {
                                if p != mi {
                                    assert(msf[p] == old(self).root_container.monitors@[p]);
                                } else {
                                    assert forall|p2: int|
                                        0 <= p2 < msf[p].workspaces@.len() implies workspace_wf(
                                        #[trigger] msf[p].workspaces@[p2],
                                    ) by {
                                        if p2 != wi {
                                            assert(msf[p].workspaces@[p2] == m0.workspaces@[p2]);
                                        }
                                    }
                                }
                            }
                            let hidx = choose|ci2: int|
                                0 <= ci2 < w0.children@.len() && crate::workspace::is_window_with(
                                    w0.children@[ci2],
                                    window_id,
                                );
                            assert(window_with_id_at(
                                old(self).root_container.monitors@,
                                mi as int,
                                wi as int,
                                hidx,
                                window_id,
                            ));
                        }
                        return res;
                    },
                    None => {},
                }
                wi = wi + 1;
            }
            mi = mi + 1;
        }
        Err(WmError::WindowNotManaged)
    }

    /// Populate the initial state: a monitor (with its workspace) for
    /// every reported native monitor, a tiling window on the nearest
    /// monitor's displayed workspace for every manageable native window,
    /// and focus on the originally foreground window. Called once on a
    /// freshly constructed state; the bound on the monitor list keeps
    /// the id arithmetic inside `u64` (the design targets desktops with
    /// a handful of monitors and under a thousand windows). Fails
    /// exactly when nothing exists afterwards to focus (no monitors).
    pub fn populate(&mut self, monitor_specs: Vec<MonitorSpec>, window_specs: &Vec<WindowSpec>,
        foreground_window: u64) -> (r: Result<(), WmError>)
        requires
            wm_wf(*old(self)),
            forall|i: int|
                0 <= i < monitor_specs@.len() ==> rect_wf((#[trigger] monitor_specs@[i]).rect)
                    && rect_wf(monitor_specs@[i].working_rect) && monitor_specs@[i].scale_pct
                    <= MAX_SCALE_PCT,
            old(self).next_id == 1,
            monitor_specs@.len() <= 1000,
        ensures
            wm_wf(*final(self)),
            final(self).root_container.monitors@.len() == old(
                self,
            ).root_container.monitors@.len() + monitor_specs@.len(),
            forall|i: int|
                0 <= i < monitor_specs@.len() ==> {
                    let m = final(self).root_container.monitors@[old(
                        self,
                    ).root_container.monitors@.len() + i];
                    &&& m.handle == (#[trigger] monitor_specs@[i]).handle
                    &&& m.rect == monitor_specs@[i].rect
                    &&& m.working_rect == monitor_specs@[i].working_rect
                    &&& m.scale_pct == monitor_specs@[i].scale_pct
                    &&& m.workspaces@.len() == 1
                    &&& m.workspaces@[0].config == monitor_specs@[i].workspace_config
                },
            final(self).has_pending_focus_sync,
            r is Ok <==> final(self).root_container.monitors@.len() > 0,
            r is Err ==> r == Err::<(), WmError>(WmError::ConfigReferenceMissing),
    {
        let ghost s0 = monitor_specs@;
        let ghost base = self.root_container.monitors@.len();
        let mut specs = monitor_specs;
        let mut added: usize = 0;
        while specs.len() > 0
            invariant
                wm_wf(*self),
                specs@ == s0.skip(added as int),
                added <= s0.len() <= 1000,
                self.next_id == 1 + 2 * added,
                self.root_container.monitors@.len() == base + added,
                forall|i: int|
                    0 <= i < s0.len() ==> rect_wf((#[trigger] s0[i]).rect) && rect_wf(
                        s0[i].working_rect,
                    ) && s0[i].scale_pct <= MAX_SCALE_PCT,
                forall|i: int|
                    0 <= i < added ==> {
                        let m = #[trigger] self.root_container.monitors@[base + i];
                        &&& m.handle == s0[i].handle
                        &&& m.rect == s0[i].rect
                        &&& m.working_rect == s0[i].working_rect
                        &&& m.scale_pct == s0[i].scale_pct
                        &&& m.workspaces@.len() == 1
                        &&& m.workspaces@[0].config == s0[i].workspace_config
                    },
                self.has_pending_focus_sync == old(self).has_pending_focus_sync,
            decreases specs@.len(),
        {
            let ghost ms_before = self.root_container.monitors@;
            let spec = specs.remove(0);
            proof {
                assert(specs@ =~= s0.skip(added as int + 1));
                assert(spec == s0[added as int]);
            }
            let _ = self.add_monitor(spec);
            added = added + 1;
            proof {
                assert forall|i: int|
                    0 <= i < added implies {
                    let m = #[trigger] self.root_container.monitors@[base + i];
                    &&& m.handle == s0[i].handle
                    &&& m.rect == s0[i].rect
                    &&& m.working_rect == s0[i].working_rect
                    &&& m.scale_pct == s0[i].scale_pct
                    &&& m.workspaces@.len() == 1
                    &&& m.workspaces@[0].config == s0[i].workspace_config
                } by {
                    if i < added - 1 {
                        assert(self.root_container.monitors@[base + i]
                            == self.root_container.monitors@.take(ms_before.len() as int)[base
                            + i]);
                    } else {
                        assert(self.root_container.monitors@[base + i]
                            == self.root_container.monitors@.last());
                    }
                }
            }
        }
        proof {
            assert(s0.skip(added as int).len() == 0);
            assert(added == s0.len());
        }
        let ghost pinned = self.root_container.monitors@;
        let mut wid: usize = 0;
        let wn = window_specs.len();
        while wid < wn
            invariant
                wid <= wn == window_specs@.len(),
                wm_wf(*self),
                self.root_container.monitors@.len() == pinned.len(),
                same_skeleton(pinned, self.root_container.monitors@),
            decreases wn - wid,
        {
            let ghost ms_before = self.root_container.monitors@;
            let ws_spec = window_specs[wid];
            let near = self.nearest_monitor(ws_spec.monitor_handle);
            match near {
                Some(mon_id) => {
                    let _ = self.manage_window_on_monitor(mon_id, ws_spec.handle);
                    proof {
                        lemma_same_skeleton_trans(pinned, ms_before, self.root_container.monitors@);
                    }
                },
                None => {},
            }
            wid = wid + 1;
        }
        let ghost ms_before_focus = self.root_container.monitors@;
        let fg = self.window_from_native(foreground_window);
        match fg {
            Some(e) => {
                let _ = self.set_focused_descendant(e.id);
                proof {
                    lemma_same_skeleton_trans(
                        pinned,
                        ms_before_focus,
                        self.root_container.monitors@,
                    );
                }
            },
            None => {},
        }
        self.has_pending_focus_sync = true;
        proof {
            assert(same_skeleton(pinned, self.root_container.monitors@));
            assert forall|i: int|
                0 <= i < s0.len() implies {
                let m = self.root_container.monitors@[base + i];
                &&& m.handle == (#[trigger] s0[i]).handle
                &&& m.rect == s0[i].rect
                &&& m.working_rect == s0[i].working_rect
                &&& m.scale_pct == s0[i].scale_pct
                &&& m.workspaces@.len() == 1
                &&& m.workspaces@[0].config == s0[i].workspace_config
            } by {
                assert(pinned[base + i].handle == s0[i].handle);
                assert(self.root_container.monitors@[base + i].handle == pinned[base + i].handle);
                assert(self.root_container.monitors@[base + i].workspaces@.len() == pinned[base
                    + i].workspaces@.len());
                assert((self.root_container.monitors@[base + i].workspaces@[0]).config == pinned[
                    base + i
                ].workspaces@[0].config);
            }
        }
        if self.root_container.monitors.len() > 0 {
            Ok(())
        } else {
            Err(WmError::ConfigReferenceMissing)
        }
    }

    /// Manage a new tiling window on the displayed workspace of the
    /// given monitor: the new window takes the next fresh id, enters at
    /// the end of that workspace's tiling root, and a `WindowManaged`
    /// event is queued. Fails with `WindowNotManaged` exactly when no
    /// monitor carries the id, and with `InvalidTreeState` only when the
    /// id space or the workspace's tiling group is exhausted.
    #[verifier::loop_isolation(false)]
    pub fn manage_window_on_monitor(&mut self, monitor_id: u64, native_handle: u64) -> (r: Result<
        u64,
        WmError,
    >)
        requires
            wm_wf(*old(self)),
        ensures
            wm_wf(*final(self)),
            r == Err::<u64, WmError>(WmError::WindowNotManaged) ==> *final(self) == *old(self),
            r == Err::<u64, WmError>(WmError::WindowNotManaged) <==> (forall|m2: int|
                0 <= m2 < old(self).root_container.monitors@.len() ==> (#[trigger] old(
                    self,
                ).root_container.monitors@[m2]).id != monitor_id),
            r == Err::<u64, WmError>(WmError::InvalidTreeState) ==> old(self).next_id == u64::MAX
                || exists|mi: int, wi: int|
                #![trigger old(self).root_container.monitors@[mi].workspaces@[wi]]
                {
                    let ms0 = old(self).root_container.monitors@;
                    &&& 0 <= mi < ms0.len()
                    &&& ms0[mi].id == monitor_id
                    &&& 0 <= wi < ms0[mi].workspaces@.len()
                    &&& crate::tree::tiling_sizes(ms0[mi].workspaces@[wi].children@).len() >= 100
                },
            r is Ok ==> {
                &&& r->Ok_0 == old(self).next_id
                &&& final(self).next_id == old(self).next_id + 1
                &&& final(self).pending_events@ == old(self).pending_events@.push(
                    WmEvent::WindowManaged { window_id: old(self).next_id },
                )
                &&& exists|mi: int, wi: int|
                    #![trigger old(self).root_container.monitors@[mi].workspaces@[wi]]
                    {
                        let ms0 = old(self).root_container.monitors@;
                        let msf = final(self).root_container.monitors@;
                        &&& 0 <= mi < ms0.len()
                        &&& ms0[mi].id == monitor_id
                        &&& 0 <= wi < ms0[mi].workspaces@.len()
                        &&& msf.len() == ms0.len()
                        &&& msf[mi].workspaces@[wi].children@.len() == ms0[mi].workspaces@[
                            wi
                        ].children@.len() + 1
                        &&& msf[mi].workspaces@[wi].children@.last() is Window
                        &&& crate::workspace::win_of(msf[mi].workspaces@[wi].children@.last()).id
                            == old(self).next_id
                        &&& crate::workspace::win_of(
                            msf[mi].workspaces@[wi].children@.last(),
                        ).handle == native_handle
                        &&& crate::workspace::win_of(
                            msf[mi].workspaces@[wi].children@.last(),
                        ).state == WindowState::Tiling
                        &&& msf[mi].workspaces@[wi].focus_order@ == ms0[mi].workspaces@[
                            wi
                        ].focus_order@.push(old(self).next_id)
                        &&& forall|m2: int| 0 <= m2 < ms0.len() && m2 != mi ==> msf[m2] == ms0[m2]
                        &&& msf[mi].workspaces@.len() == ms0[mi].workspaces@.len()
                        &&& forall|w2: int|
                            0 <= w2 < ms0[mi].workspaces@.len() && w2 != wi ==> msf[mi].workspaces@[
                                w2
                            ] == ms0[mi].workspaces@[w2]
                    }
            },
            same_skeleton(
                old(self).root_container.monitors@,
                final(self).root_container.monitors@,
            ),
    {
        let id = self.next_id;
        let n = self.root_container.monitors.len();
        let mut mi: usize = 0;
        while mi < n
            invariant
                mi <= n,
                n == self.root_container.monitors@.len(),
                *self == *old(self),
                forall|m2: int|
                    0 <= m2 < mi ==> (#[trigger] self.root_container.monitors@[m2]).id
                        != monitor_id,
            decreases n - mi,
        {
            if self.root_container.monitors[mi].id == monitor_id {
                if self.next_id == u64::MAX {
                    return Err(WmError::InvalidTreeState);
                }
                // The displayed workspace is the front of the monitor's
                // focus order; the tree invariant guarantees there is one.
                if self.root_container.monitors[mi].focus_order.len() == 0 {
                    proof {
                        assert(monitor_wf(self.root_container.monitors@[mi as int]));
                        assert(false);
                    }
                    return Err(WmError::InvalidTreeState);
                }
                let ws_front = self.root_container.monitors[mi].focus_order[0];
                let k = self.root_container.monitors[mi].workspaces.len();
                let mut wi: usize = 0;
                while wi < k
                    invariant
                        wi <= k,
                        mi < n,
                        k == self.root_container.monitors@[mi as int].workspaces@.len(),
                        *self == *old(self),
                        ws_front == self.root_container.monitors@[mi as int].focus_order@[0],
                        self.root_container.monitors@[mi as int].focus_order@.len() > 0,
                        forall|w2: int|
                            0 <= w2 < wi ==> (#[trigger] self.root_container.monitors@[
                                mi as int
                            ].workspaces@[w2]).id != ws_front,
                    decreases k - wi,
                {
                    if self.root_container.monitors[mi].workspaces[wi].id == ws_front {
                        let ghost m0 = self.root_container.monitors@[mi as int];
                        let rect = crate::geometry::Rect::from_ltrb(0, 0, 0, 0);
                        let res = self.root_container.monitors[mi].workspaces[wi].manage_window(
                            id,
                            native_handle,
                            WindowState::Tiling,
                            rect,
                            DisplayState::Shown,
                        );
                        proof {
                            let msf = self.root_container.monitors@;
                            assert(workspace_ids(msf[mi as int].workspaces@) =~= workspace_ids(
                                m0.workspaces@,
                            ));
                            assert(monitor_ids(msf) =~= monitor_ids(old(
                                self,
                            ).root_container.monitors@));
                            assert forall|p: int|
                                0 <= p < msf.len() implies monitor_wf(#[trigger] msf[p]) by {
                                if p != mi {
                                    assert(msf[p] == old(self).root_container.monitors@[p]);
                                } else {
                                    assert forall|p2: int|
                                        0 <= p2 < msf[p].workspaces@.len() implies workspace_wf(
                                        #[trigger] msf[p].workspaces@[p2],
                                    ) by {
                                        if p2 != wi {
                                            assert(msf[p].workspaces@[p2] == m0.workspaces@[p2]);
                                        }
                                    }
                                }
                            }
                        }
                        match res {
                            Ok(_) => {
                                self.next_id = id + 1;
                                self.emit_event(WmEvent::WindowManaged { window_id: id });
                                return Ok(id);
                            },
                            Err(e) => {
                                return Err(e);
                            },
                        }
                    }
                    wi = wi + 1;
                }
                // Unreachable: the front of the focus order always names
                // one of the monitor's workspaces.
                proof {
                    broadcast use vstd::seq_lib::group_to_multiset_ensures;

                    let m = self.root_container.monitors@[mi as int];
                    assert(monitor_wf(m));
                    assert(m.focus_order@[0] == ws_front);
                    assert(m.focus_order@.contains(ws_front));
                    assert(m.focus_order@.to_multiset().count(ws_front) > 0);
                    assert(workspace_ids(m.workspaces@).to_multiset().count(ws_front) > 0);
                    assert(workspace_ids(m.workspaces@).contains(ws_front));
                    let widx = choose|w: int|
                        0 <= w < workspace_ids(m.workspaces@).len() && workspace_ids(
                            m.workspaces@,
                        )[w] == ws_front;
                    assert(m.workspaces@[widx].id == ws_front);
                    assert(false);
                }
                return Err(WmError::InvalidTreeState);
            }
            mi = mi + 1;
        }
        Err(WmError::WindowNotManaged)
    }
}

/// Window entries depend only on the children: workspaces with equal
/// children lists have equal entries.
proof fn lemma_ws_entries_congruent(w1: Workspace, w2: Workspace, t: int)
    requires
        w1.children@ == w2.children@,
        0 <= t,
    ensures
        ws_window_entries_upto(w1, t) == ws_window_entries_upto(w2, t),
    decreases t,
{
    if t > 0 {
        lemma_ws_entries_congruent(w1, w2, t - 1);
    }
}

/// Monitor entries depend only on the workspaces' children.
proof fn lemma_mon_entries_congruent(m1: Monitor, m2: Monitor, j: int)
    requires
        m1.workspaces@.len() == m2.workspaces@.len(),
        forall|w: int|
            0 <= w < m1.workspaces@.len() ==> (#[trigger] m1.workspaces@[w]).children@
                == m2.workspaces@[w].children@,
        0 <= j,
    ensures
        monitor_window_entries_upto(m1, j) == monitor_window_entries_upto(m2, j),
    decreases j,
{
    if j > 0 {
        lemma_mon_entries_congruent(m1, m2, j - 1);
        if j - 1 < m1.workspaces@.len() {
            lemma_ws_entries_congruent(
                m1.workspaces@[j - 1],
                m2.workspaces@[j - 1],
                m1.workspaces@[j - 1].children@.len() as int,
            );
        }
    }
}

/// Tree entries depend only on the workspaces' children.
pub proof fn lemma_all_entries_congruent(a: Seq<Monitor>, b: Seq<Monitor>)
    requires
        a.len() == b.len(),
        forall|i: int|
            0 <= i < a.len() ==> (#[trigger] a[i]).workspaces@.len() == b[i].workspaces@.len(),
        forall|i: int, w: int|
            0 <= i < a.len() && 0 <= w < a[i].workspaces@.len() ==> (#[trigger] a[i].workspaces@[
                w
            ]).children@ == b[i].workspaces@[w].children@,
    ensures
        all_window_entries(a) == all_window_entries(b),
    decreases a,
{
    if a.len() > 0 {
        assert(a.drop_last().len() == b.drop_last().len());
        assert forall|i: int|
            0 <= i < a.drop_last().len() implies (#[trigger] a.drop_last()[i]).workspaces@.len()
            == b.drop_last()[i].workspaces@.len() by {
            assert(a.drop_last()[i] == a[i]);
            assert(b.drop_last()[i] == b[i]);
        }
        assert forall|i: int, w: int|
            0 <= i < a.drop_last().len() && 0 <= w < a.drop_last()[i].workspaces@.len() implies (
        #[trigger] a.drop_last()[i].workspaces@[w]).children@ == b.drop_last()[i].workspaces@[
            w
        ].children@ by {
            assert(a.drop_last()[i] == a[i]);
            assert(b.drop_last()[i] == b[i]);
        }
        lemma_all_entries_congruent(a.drop_last(), b.drop_last());
        assert(a.last() == a[a.len() - 1]);
        assert(b.last() == b[b.len() - 1]);
        lemma_mon_entries_congruent(a.last(), b.last(), a.last().workspaces@.len() as int);
    }
}

/// A found entry is a member of the list scanned.
pub proof fn lemma_find_entry_is_member(es: Seq<WindowEntry>, id: u64, j: int)
    requires
        0 <= j,
    ensures
        match find_entry_by_id(es, j, id) {
            Some(e) => exists|q: int| j <= q < es.len() && #[trigger] es[q] == e,
            None => true,
        },
    decreases es.len() - j,
{
    if j < es.len() && es[j].id != id {
        lemma_find_entry_is_member(es, id, j + 1);
    }
}

/// Ids of all workspaces of a list of monitors, in order.
pub open spec fn all_workspace_ids(ms: Seq<Monitor>) -> Seq<u64>
    decreases ms,
{
    if ms.len() == 0 {
        Seq::empty()
    } else {
        all_workspace_ids(ms.drop_last()) + workspace_ids(ms.last().workspaces@)
    }
}

proof fn lemma_all_ws_ids_take_succ(ms: Seq<Monitor>, i: int)
    requires
        0 <= i < ms.len(),
    ensures
        all_workspace_ids(ms.take(i + 1)) == all_workspace_ids(ms.take(i)) + workspace_ids(
            ms[i].workspaces@,
        ),
{
    assert(ms.take(i + 1).drop_last() =~= ms.take(i));
    assert(ms.take(i + 1).last() == ms[i]);
}

/// The entries of every window in a tile's subtree, depth-first.
pub open spec fn tile_entries(t: Tile) -> Seq<WindowEntry>
    decreases t,
{
    match t {
        Tile::Window(w) => seq![
            WindowEntry { id: w.id, handle: w.handle, state: w.state, display_state: w.display_state },
        ],
        Tile::Split(s) => tiles_entries(s.children@),
    }
}

/// The entries of every window under a sibling group, depth-first.
pub open spec fn tiles_entries(ts: Seq<Tile>) -> Seq<WindowEntry>
    decreases ts,
{
    if ts.len() == 0 {
        Seq::empty()
    } else {
        tiles_entries(ts.drop_last()) + tile_entries(ts.last())
    }
}

proof fn lemma_tiles_entries_take_succ(ts: Seq<Tile>, i: int)
    requires
        0 <= i < ts.len(),
    ensures
        tiles_entries(ts.take(i + 1)) == tiles_entries(ts.take(i)) + tile_entries(ts[i]),
{
    assert(ts.take(i + 1).drop_last() =~= ts.take(i));
    assert(ts.take(i + 1).last() == ts[i]);
}

/// Append the entries of every window in a tile's subtree, depth-first.
#[verifier::loop_isolation(false)]
fn collect_tile_entries(t: &Tile, out: &mut Vec<WindowEntry>)
    ensures
        final(out)@ == old(out)@ + tile_entries(*t),
    decreases t,
{
    let ghost o0 = out@;
    match t {
        Tile::Window(w) => {
            out.push(
                WindowEntry {
                    id: w.id,
                    handle: w.handle,
                    state: w.state,
                    display_state: w.display_state,
                },
            );
            proof {
                assert(out@ =~= o0 + tile_entries(*t));
            }
        },
        Tile::Split(s) => {
            let n = s.children.len();
            let mut j: usize = 0;
            while j < n
                invariant
                    j <= n == s.children@.len(),
                    out@ == o0 + tiles_entries(s.children@.take(j as int)),
                decreases n - j,
            {
                proof {
                    lemma_tiles_entries_take_succ(s.children@, j as int);
                }
                collect_tile_entries(&s.children[j], out);
                j = j + 1;
            }
            proof {
                assert(s.children@.take(n as int) =~= s.children@);
            }
        },
    }
}

/// The window entries of one workspace's first `t` children's subtrees.
pub open spec fn ws_window_entries_upto(w: Workspace, t: int) -> Seq<WindowEntry>
    decreases t,
{
    if t <= 0 {
        Seq::empty()
    } else {
        ws_window_entries_upto(w, t - 1) + (if 0 <= t - 1 < w.children@.len() {
            tile_entries(w.children@[t - 1])
        } else {
            Seq::<WindowEntry>::empty()
        })
    }
}

proof fn lemma_ws_win_entries_take_succ(w: Workspace, t: int)
    requires
        0 <= t,
    ensures
        ws_window_entries_upto(w, t + 1) == ws_window_entries_upto(w, t) + (if t
            < w.children@.len() {
            tile_entries(w.children@[t])
        } else {
            Seq::<WindowEntry>::empty()
        }),
{
}

/// The window entries of a workspace: id and native handle of each
/// direct child window, in order.
pub open spec fn ws_window_entries(w: Workspace) -> Seq<WindowEntry> {
    ws_window_entries_upto(w, w.children@.len() as int)
}

/// The window entries of one monitor's first `j` workspaces.
pub open spec fn monitor_window_entries_upto(m: Monitor, j: int) -> Seq<WindowEntry>
    decreases j,
{
    if j <= 0 {
        Seq::empty()
    } else {
        monitor_window_entries_upto(m, j - 1) + (if 0 <= j - 1 < m.workspaces@.len() {
            ws_window_entries(m.workspaces@[j - 1])
        } else {
            Seq::<WindowEntry>::empty()
        })
    }
}

proof fn lemma_mon_win_entries_take_succ(m: Monitor, j: int)
    requires
        0 <= j,
    ensures
        monitor_window_entries_upto(m, j + 1) == monitor_window_entries_upto(m, j) + (if j
            < m.workspaces@.len() {
            ws_window_entries(m.workspaces@[j])
        } else {
            Seq::<WindowEntry>::empty()
        }),
{
}

/// The window entries of a monitor.
pub open spec fn monitor_window_entries(m: Monitor) -> Seq<WindowEntry> {
    monitor_window_entries_upto(m, m.workspaces@.len() as int)
}

/// The window entries of the whole tree.
pub open spec fn all_window_entries(ms: Seq<Monitor>) -> Seq<WindowEntry>
    decreases ms,
{
    if ms.len() == 0 {
        Seq::empty()
    } else {
        all_window_entries(ms.drop_last()) + monitor_window_entries(ms.last())
    }
}

proof fn lemma_all_win_entries_take_succ(ms: Seq<Monitor>, i: int)
    requires
        0 <= i < ms.len(),
    ensures
        all_window_entries(ms.take(i + 1)) == all_window_entries(ms.take(i))
            + monitor_window_entries(ms[i]),
{
    assert(ms.take(i + 1).drop_last() =~= ms.take(i));
    assert(ms.take(i + 1).last() == ms[i]);
}

} // verus!
