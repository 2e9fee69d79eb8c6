//! The container tree: root, monitors, workspaces, and the tiles inside a
//! workspace (split containers and windows). Parents exclusively own their
//! children; upward links are ids resolved from the root, so the tree has
//! a single owning path to every container.

use vstd::prelude::*;

use crate::geometry::{Rect, RectDelta, rect_wf, MAX_SCALE_PCT};
use crate::sizing::group_wf;

verus! {

/// Axis along which a workspace or split container lays out its tiling
/// children.
#[derive(Clone, Copy, Debug, PartialEq, Eq, Structural)]
pub enum TilingDirection {
    Horizontal,
    Vertical,
}

/// The layout state of a managed window.
#[derive(Clone, Copy, Debug, PartialEq, Eq, Structural)]
pub enum WindowState {
    Tiling,
    Floating,
    Fullscreen,
    Minimized,
}

/// How the window currently stands towards the OS: shown, hidden, or in a
/// WM-driven transition between the two. The reconciler in the platform
/// shell drives the transitions when it flushes geometry and visibility;
/// the core reads the field (a focus event for a window in `Hiding` is
/// dropped) and records the value the shell reports.
#[derive(Clone, Copy, Debug, PartialEq, Eq, Structural)]
pub enum DisplayState {
    Shown,
    Showing,
    Hiding,
    Hidden,
}

/// Whether the focused container is tiling or floating.
#[derive(Clone, Copy, Debug, PartialEq, Eq, Structural)]
pub enum FocusMode {
    Tiling,
    Floating,
}

/// Remembered tiling position of a window that left the `Tiling` state,
/// so that restoring the previous state puts it back exactly.
#[derive(Clone, Copy, Debug, PartialEq, Eq, Structural)]
pub struct PrevTiling {
    pub index: usize,
    pub size: u32,
}

/// A managed window. `tiling_size` is meaningful while the state is
/// `Tiling`; `floating_rect` while it is not.
#[derive(Clone, Copy, Debug)]
pub struct Window {
    pub id: u64,
    pub handle: u64,
    pub state: WindowState,
    pub prev_state: WindowState,
    pub display_state: DisplayState,
    pub tiling_size: u32,
    pub floating_rect: Rect,
    pub prev_tiling: Option<PrevTiling>,
}

/// A purely structural container that partitions its slice of the parent
/// along its tiling direction.
#[derive(Debug)]
pub struct Split {
    pub id: u64,
    pub tiling_direction: TilingDirection,
    pub tiling_size: u32,
    pub children: Vec<Tile>,
    pub focus_order: Vec<u64>,
}

/// A child of a workspace: a split container or a window.
#[derive(Debug)]
pub enum Tile {
    Split(Split),
    Window(Window),
}

/// Declarative description of a workspace from the user's configuration.
#[derive(Debug)]
pub struct WorkspaceConfig {
    pub name: String,
    pub display_name: Option<String>,
    pub keep_alive: bool,
}

/// Outer-gap configuration applied between a workspace and its monitor.
#[derive(Clone, Copy, Debug)]
pub struct GapsConfig {
    pub outer_gap: RectDelta,
    pub scale_with_dpi: bool,
}

/// A named layout region; children are split containers and windows, and
/// `focus_order` lists the child ids most-recently-focused first.
#[derive(Debug)]
pub struct Workspace {
    pub id: u64,
    pub config: WorkspaceConfig,
    pub gaps_config: GapsConfig,
    pub tiling_direction: TilingDirection,
    pub children: Vec<Tile>,
    pub focus_order: Vec<u64>,
}

/// A physical monitor; children are workspaces, and the front of
/// `focus_order` is the displayed workspace.
#[derive(Debug)]
pub struct Monitor {
    pub id: u64,
    pub handle: u64,
    pub rect: Rect,
    pub working_rect: Rect,
    pub scale_pct: u32,
    pub workspaces: Vec<Workspace>,
    pub focus_order: Vec<u64>,
}

/// The unique root of the container tree; children are monitors.
#[derive(Debug)]
pub struct RootContainer {
    pub monitors: Vec<Monitor>,
    pub focus_order: Vec<u64>,
}

/// Error kinds of the window manager's core.
#[derive(Clone, Copy, Debug, PartialEq, Eq, Structural)]
pub enum WmError {
    /// A tree invariant would be violated (fatal for the event loop).
    InvalidTreeState,
    /// A platform call failed; the operation is skipped.
    PlatformCallFailed,
    /// A configured reference (such as a workspace name) does not resolve.
    ConfigReferenceMissing,
    /// The native window is not managed by the WM.
    WindowNotManaged,
}

/// Notifications emitted towards IPC subscribers.
#[derive(Clone, Debug, PartialEq, Eq, Structural)]
pub enum WmEvent {
    FocusChanged { container_id: u64 },
    WindowManaged { window_id: u64 },
    WindowUnmanaged { window_id: u64 },
    WorkspaceActivated { workspace_id: u64 },
    WorkspaceUpdated { workspace_id: u64 },
    BindingModesChanged,
    TilingDirectionChanged,
}

/// Whether a tile takes part in the tiling layout of its sibling group.
pub open spec fn is_tiling(t: Tile) -> bool {
    match t {
        Tile::Split(_) => true,
        Tile::Window(w) => w.state == WindowState::Tiling,
    }
}

/// The tiling size of a tile (meaningful when `is_tiling`).
pub open spec fn tile_size(t: Tile) -> u32 {
    match t {
        Tile::Split(s) => s.tiling_size,
        Tile::Window(w) => w.tiling_size,
    }
}

/// The id of a tile.
pub open spec fn tile_id(t: Tile) -> u64 {
    match t {
        Tile::Split(s) => s.id,
        Tile::Window(w) => w.id,
    }
}

/// The tiling sizes of a sibling group, in order, skipping non-tiling
/// members.
pub open spec fn tiling_sizes(ts: Seq<Tile>) -> Seq<u32>
    decreases ts.len(),
{
    if ts.len() == 0 {
        Seq::empty()
    } else {
        tiling_sizes(ts.drop_last()) + (if is_tiling(ts.last()) {
            seq![tile_size(ts.last())]
        } else {
            Seq::<u32>::empty()
        })
    }
}

/// The ids of the members of a sibling group, in order.
pub open spec fn ids_of(ts: Seq<Tile>) -> Seq<u64>
    decreases ts.len(),
{
    if ts.len() == 0 {
        Seq::empty()
    } else {
        ids_of(ts.drop_last()) + seq![tile_id(ts.last())]
    }
}

/// Every id in a tile's subtree, the tile's own id first.
pub open spec fn tile_all_ids(t: Tile) -> Seq<u64>
    decreases t,
{
    match t {
        Tile::Split(s) => seq![s.id] + tiles_all_ids(s.children@),
        Tile::Window(w) => seq![w.id],
    }
}

/// Every id in the subtrees of a sibling group.
pub open spec fn tiles_all_ids(ts: Seq<Tile>) -> Seq<u64>
    decreases ts,
{
    if ts.len() == 0 {
        Seq::empty()
    } else {
        tiles_all_ids(ts.drop_last()) + tile_all_ids(ts.last())
    }
}

/// The ids of the windows in a tile's subtree, depth-first.
pub open spec fn tile_window_ids(t: Tile) -> Seq<u64>
    decreases t,
{
    match t {
        Tile::Split(s) => tiles_window_ids(s.children@),
        Tile::Window(w) => seq![w.id],
    }
}

/// The ids of the windows under a sibling group, depth-first.
pub open spec fn tiles_window_ids(ts: Seq<Tile>) -> Seq<u64>
    decreases ts,
{
    if ts.len() == 0 {
        Seq::empty()
    } else {
        tiles_window_ids(ts.drop_last()) + tile_window_ids(ts.last())
    }
}

/// How many windows in a tile's subtree are in the given state.
pub open spec fn tile_state_count(t: Tile, st: WindowState) -> int
    decreases t,
{
    match t {
        Tile::Split(s) => tiles_state_count(s.children@, st),
        Tile::Window(w) => if w.state == st {
            1
        } else {
            0
        },
    }
}

/// How many windows under a sibling group are in the given state.
pub open spec fn tiles_state_count(ts: Seq<Tile>, st: WindowState) -> int
    decreases ts,
{
    if ts.len() == 0 {
        0
    } else {
        tiles_state_count(ts.drop_last(), st) + tile_state_count(ts.last(), st)
    }
}

/// Whether a focus-order list is a permutation of a sibling group's ids.
pub open spec fn focus_order_wf(order: Seq<u64>, ts: Seq<Tile>) -> bool {
    order.to_multiset() == ids_of(ts).to_multiset()
}

/// Well-formedness of a tile subtree: every split has at least two
/// children, all of them tiling with sizes that share the axis exactly,
/// and a focus order that permutes its child ids.
pub open spec fn tile_wf(t: Tile) -> bool
    decreases t,
{
    match t {
        Tile::Split(s) => {
            &&& s.children@.len() >= 2
            &&& forall|i: int| 0 <= i < s.children@.len() ==> is_tiling(#[trigger] s.children@[i])
            &&& group_wf(tiling_sizes(s.children@))
            &&& focus_order_wf(s.focus_order@, s.children@)
            &&& forall|i: int| 0 <= i < s.children@.len() ==> tile_wf(#[trigger] s.children@[i])
        },
        Tile::Window(w) => rect_wf(w.floating_rect),
    }
}

/// Well-formedness of all tiles in a sibling group.
pub open spec fn tiles_wf(ts: Seq<Tile>) -> bool {
    forall|i: int| 0 <= i < ts.len() ==> tile_wf(#[trigger] ts[i])
}

/// Well-formedness of a workspace: children are well-formed, tiling sizes
/// share the axis exactly, the focus order permutes the child ids, and at
/// most one window in the workspace is fullscreen.
pub open spec fn workspace_wf(w: Workspace) -> bool {
    &&& tiles_wf(w.children@)
    &&& group_wf(tiling_sizes(w.children@))
    &&& focus_order_wf(w.focus_order@, w.children@)
    &&& tiles_state_count(w.children@, WindowState::Fullscreen) <= 1
}

/// The ids of a monitor's workspaces, in order.
pub open spec fn workspace_ids(ws: Seq<Workspace>) -> Seq<u64> {
    ws.map(|i: int, w: Workspace| w.id)
}

/// Well-formedness of a monitor: at least one workspace, all well-formed,
/// and a focus order permuting the workspace ids (its front names the
/// displayed workspace).
pub open spec fn monitor_wf(m: Monitor) -> bool {
    &&& m.workspaces@.len() >= 1
    &&& forall|i: int| 0 <= i < m.workspaces@.len() ==> workspace_wf(#[trigger] m.workspaces@[i])
    &&& m.focus_order@.to_multiset() == workspace_ids(m.workspaces@).to_multiset()
    &&& m.focus_order@.len() == m.workspaces@.len()
    &&& rect_wf(m.rect)
    &&& rect_wf(m.working_rect)
    &&& m.scale_pct <= MAX_SCALE_PCT
}

/// The ids of the root's monitors, in order.
pub open spec fn monitor_ids(ms: Seq<Monitor>) -> Seq<u64> {
    ms.map(|i: int, m: Monitor| m.id)
}

/// Well-formedness of the whole tree.
pub open spec fn root_wf(r: RootContainer) -> bool {
    &&& forall|i: int| 0 <= i < r.monitors@.len() ==> monitor_wf(#[trigger] r.monitors@[i])
    &&& r.focus_order@.to_multiset() == monitor_ids(r.monitors@).to_multiset()
    &&& r.focus_order@.len() == r.monitors@.len()
}

impl Tile {
    /// The id of this tile.
    pub fn id(&self) -> (id: u64)
        ensures
            id == tile_id(*self),
    {
        match self {
            Tile::Split(s) => s.id,
            Tile::Window(w) => w.id,
        }
    }

    /// Whether this tile takes part in tiling layout.
    pub fn is_tiling(&self) -> (r: bool)
        ensures
            r == is_tiling(*self),
    {
        match self {
            Tile::Split(_) => true,
            Tile::Window(w) => matches!(w.state, WindowState::Tiling),
        }
    }

    /// The tiling size of this tile.
    pub fn tiling_size(&self) -> (r: u32)
        ensures
            r == tile_size(*self),
    {
        match self {
            Tile::Split(s) => s.tiling_size,
            Tile::Window(w) => w.tiling_size,
        }
    }
}

} // verus!
