use wm_core::events::handle_window_focused;
use wm_core::geometry::{boundary_px, LengthUnit, Rect};
use wm_core::sizing::{
    distribute_size, insert_tiling_size, resize_tiling_sizes, undistribute_size,
};
use wm_core::state::{ContainerKind, FocusEntry, MonitorSpec, WindowSpec, WmState};
use wm_core::state::select_focus_target;
use wm_core::tree::{
    DisplayState, GapsConfig, TilingDirection, WindowState, WmError, Workspace, WorkspaceConfig,
};
use wm_core::{FULL_SIZE, MIN_TILING_SIZE};

fn ws_config(name: &str) -> WorkspaceConfig {
    WorkspaceConfig { name: name.to_string(), display_name: None, keep_alive: false }
}

fn gaps_none() -> GapsConfig {
    GapsConfig {
        outer_gap: wm_core::geometry::RectDelta {
            left: LengthUnit::Px(0),
            top: LengthUnit::Px(0),
            right: LengthUnit::Px(0),
            bottom: LengthUnit::Px(0),
        },
        scale_with_dpi: false,
    }
}

fn monitor_spec(handle: u64) -> MonitorSpec {
    MonitorSpec {
        handle,
        rect: Rect { left: 0, top: 0, right: 1920, bottom: 1080 },
        working_rect: Rect { left: 0, top: 0, right: 1920, bottom: 1080 },
        scale_pct: 100,
        workspace_config: ws_config("1"),
    }
}

fn tiling_sizes_of(ws: &Workspace) -> Vec<u32> {
    let mut v = Vec::new();
    for t in ws.children.iter() {
        match t {
            wm_core::tree::Tile::Window(w) => {
                if matches!(w.state, WindowState::Tiling) {
                    v.push(w.tiling_size);
                }
            }
            wm_core::tree::Tile::Split(s) => v.push(s.tiling_size),
        }
    }
    v
}

// Scenario: one monitor 1920x1080, workspace "1", three tiling windows.
fn three_window_state() -> (WmState, u64, u64, u64) {
    let mut s = WmState::new();
    s.populate(vec![monitor_spec(100)], &Vec::new(), 0).unwrap();
    let m = s.monitors()[0].id;
    let a = s.manage_window_on_monitor(m, 11).unwrap();
    let b = s.manage_window_on_monitor(m, 12).unwrap();
    let c = s.manage_window_on_monitor(m, 13).unwrap();
    (s, a, b, c)
}

#[test]
fn three_tiling_windows_share_the_axis() {
    let (s, _a, _b, _c) = three_window_state();
    let ws = &s.monitors()[0].workspaces[0];
    let sizes = tiling_sizes_of(ws);
    assert_eq!(sizes.len(), 3);
    assert_eq!(sizes.iter().sum::<u32>(), FULL_SIZE);
    // Each within 1e-4 of a third.
    for v in &sizes {
        assert!((*v as i64 - 3333).abs() <= 1);
    }
    // Pixel boundaries of the three columns: 0, 640, 1280, 1920.
    let mut cum = 0u32;
    let mut edges = vec![boundary_px(1920, 0)];
    for v in &sizes {
        cum += v;
        edges.push(boundary_px(1920, cum));
    }
    assert_eq!(edges, vec![0, 640, 1280, 1920]);
}

#[test]
fn resize_distributes_from_sibling_headroom() {
    // From the three-window scenario, grow the middle window by 0.1.
    let (mut s, _a, b, _c) = three_window_state();
    assert!(s.resize_tiling_container(b, 1000));
    let ws = &s.monitors()[0].workspaces[0];
    let sizes = tiling_sizes_of(ws);
    assert_eq!(sizes.iter().sum::<u32>(), FULL_SIZE);
    // Expected: b == 1/3 + 0.1, siblings 1/3 - 0.05 each (within 1e-4).
    assert!((sizes[0] as i64 - 2833).abs() <= 1);
    assert!((sizes[1] as i64 - 4333).abs() <= 1);
    assert!((sizes[2] as i64 - 2833).abs() <= 1);
    // Corresponding pixel rects: 544 and 1376 (within one pixel).
    let e1 = boundary_px(1920, sizes[0]);
    let e2 = boundary_px(1920, sizes[0] + sizes[1]);
    assert!((e1 - 544).abs() <= 1);
    assert!((e2 - 1376).abs() <= 1);
}

#[test]
fn resize_only_tiling_child_is_a_no_op() {
    let mut sizes: Vec<u32> = vec![FULL_SIZE];
    resize_tiling_sizes(&mut sizes, 0, 500);
    assert_eq!(sizes, vec![FULL_SIZE]);
}

#[test]
fn resize_clamps_to_available_headroom() {
    let mut sizes: Vec<u32> = vec![5000, 5000];
    // Sibling can only give 5000 - 100; a larger request clamps there.
    resize_tiling_sizes(&mut sizes, 0, 100000);
    assert_eq!(sizes, vec![9900, 100]);
    assert_eq!(sizes.iter().sum::<u32>(), FULL_SIZE);
}

#[test]
fn resize_shrink_clamps_at_minimum_size() {
    let mut sizes: Vec<u32> = vec![5000, 5000];
    resize_tiling_sizes(&mut sizes, 0, -100000);
    assert_eq!(sizes, vec![100, 9900]);
}

#[test]
fn insert_scales_existing_sizes() {
    let mut sizes: Vec<u32> = vec![FULL_SIZE];
    let newcomer = insert_tiling_size(&mut sizes);
    assert_eq!(sizes, vec![5000]);
    assert_eq!(newcomer, 5000);
    sizes.push(newcomer);
    let newcomer2 = insert_tiling_size(&mut sizes);
    assert_eq!(sizes[0] + sizes[1] + newcomer2, FULL_SIZE);
    assert_eq!(sizes, vec![3333, 3333]);
    assert_eq!(newcomer2, 3334);
}

#[test]
fn distribute_then_undistribute_restores_sizes() {
    let mut sizes: Vec<u32> = vec![5000, 3000, 1900];
    let before = sizes.clone();
    distribute_size(&mut sizes, 100);
    assert_eq!(sizes.iter().sum::<u32>(), 10000);
    assert!(undistribute_size(&mut sizes, 100));
    assert_eq!(sizes, before);
}

#[test]
fn minimize_and_restore_puts_the_window_back() {
    // A window leaving and re-entering the tiling state keeps its exact
    // size and position.
    let (mut s, _a, _b, c) = three_window_state();
    let before = tiling_sizes_of(&s.monitors()[0].workspaces[0]);
    s.update_window_state(c, WindowState::Minimized).unwrap();
    let during = tiling_sizes_of(&s.monitors()[0].workspaces[0]);
    assert_eq!(during.len(), 2);
    assert_eq!(during.iter().sum::<u32>(), FULL_SIZE);
    s.update_window_state(c, WindowState::Tiling).unwrap();
    let after = tiling_sizes_of(&s.monitors()[0].workspaces[0]);
    assert_eq!(after, before);
}

#[test]
fn at_most_one_fullscreen_per_workspace() {
    let (mut s, a, b, _c) = three_window_state();
    s.update_window_state(a, WindowState::Fullscreen).unwrap();
    s.update_window_state(b, WindowState::Fullscreen).unwrap();
    let ws = &s.monitors()[0].workspaces[0];
    let full = ws.get_fullscreen_window();
    assert_eq!(full, Some(b));
    // The demoted window is no longer fullscreen.
    let ea = s.window_by_id(a).unwrap();
    assert!(!matches!(ea.state, WindowState::Fullscreen));
    // Tiling sizes still share the axis.
    let sizes = tiling_sizes_of(ws);
    if !sizes.is_empty() {
        assert_eq!(sizes.iter().sum::<u32>(), FULL_SIZE);
    }
}

#[test]
fn fullscreen_window_covers_the_workspace() {
    let (mut s, _a, _b, c) = three_window_state();
    s.update_window_state(c, WindowState::Fullscreen).unwrap();
    let m = &s.monitors()[0];
    let ws = &m.workspaces[0];
    let rect = ws.to_rect(m);
    assert_eq!((rect.left, rect.top, rect.right, rect.bottom), (0, 0, 1920, 1080));
    // The two remaining tiling windows still sum to the full axis.
    let sizes = tiling_sizes_of(ws);
    assert_eq!(sizes.len(), 2);
    assert_eq!(sizes.iter().sum::<u32>(), FULL_SIZE);
}

#[test]
fn focus_event_for_unmanaged_window_is_a_no_op() {
    let (mut s, _a, _b, _c) = three_window_state();
    let before_windows = s.windows();
    let before_focused = s.focused_container();
    let before_flag = s.has_pending_focus_sync;
    let r = handle_window_focused(9999, &mut s, 1000);
    assert!(r.is_ok());
    assert_eq!(s.windows(), before_windows);
    assert_eq!(s.focused_container(), before_focused);
    assert_eq!(s.has_pending_focus_sync, before_flag);
}

#[test]
fn focus_event_within_grace_period_only_sets_the_flag() {
    let (mut s, a, _b, _c) = three_window_state();
    let _ = s.set_focused_descendant(a);
    s.has_pending_focus_sync = false;
    s.unmanaged_or_minimized_timestamp = Some(5000);
    let before_windows = s.windows();
    let before_focused = s.focused_container();
    // 60 ms after the unmanage: the event is vetoed.
    let r = handle_window_focused(12, &mut s, 5060);
    assert!(r.is_ok());
    assert!(s.has_pending_focus_sync);
    assert_eq!(s.windows(), before_windows);
    assert_eq!(s.focused_container(), before_focused);
}

#[test]
fn focus_event_after_grace_period_moves_focus() {
    let (mut s, a, b, _c) = three_window_state();
    let _ = s.set_focused_descendant(a);
    s.unmanaged_or_minimized_timestamp = Some(5000);
    // 200 ms later: the grace period is over, focus moves.
    let r = handle_window_focused(12, &mut s, 5200);
    assert!(r.is_ok());
    assert_eq!(s.focused_container(), Some(b));
    assert!(s.has_pending_focus_sync);
}

#[test]
fn focus_round_trip_restores_the_front() {
    let (mut s, a, b, _c) = three_window_state();
    assert!(s.set_focused_descendant(a));
    let once = s.monitors()[0].workspaces[0].focus_order.clone();
    assert!(s.set_focused_descendant(b));
    assert!(s.set_focused_descendant(a));
    let thrice = s.monitors()[0].workspaces[0].focus_order.clone();
    assert_eq!(once[0], a);
    assert_eq!(thrice[0], a);
    let mut x = once.clone();
    let mut y = thrice.clone();
    x.sort();
    y.sort();
    assert_eq!(x, y);
}

#[test]
fn focus_target_prefers_the_same_kind() {
    // Destroyed tiling window W with siblings X (tiling) and Y
    // (floating): X is the target.
    let entries = vec![
        FocusEntry { id: 2, window_state: Some(WindowState::Floating) },
        FocusEntry { id: 3, window_state: Some(WindowState::Tiling) },
    ];
    let t = select_focus_target(&entries, WindowState::Tiling, 99);
    assert_eq!(t, 3);
}

#[test]
fn focus_target_falls_back_to_non_minimized() {
    let entries = vec![
        FocusEntry { id: 2, window_state: Some(WindowState::Minimized) },
        FocusEntry { id: 3, window_state: Some(WindowState::Floating) },
    ];
    let t = select_focus_target(&entries, WindowState::Tiling, 99);
    assert_eq!(t, 3);
}

#[test]
fn focus_target_falls_back_to_first_entry_then_workspace() {
    let entries = vec![FocusEntry { id: 7, window_state: Some(WindowState::Minimized) }];
    assert_eq!(select_focus_target(&entries, WindowState::Tiling, 99), 7);
    let empty: Vec<FocusEntry> = Vec::new();
    assert_eq!(select_focus_target(&empty, WindowState::Tiling, 99), 99);
}

#[test]
fn focus_target_after_removal_of_unfocused_window_is_none() {
    let (mut s, a, b, _c) = three_window_state();
    let _ = s.set_focused_descendant(a);
    assert_eq!(s.focus_target_after_removal(b), None);
}

#[test]
fn focus_target_after_removal_of_focused_window() {
    let (mut s, _a, b, c) = three_window_state();
    let _ = s.set_focused_descendant(c);
    let _ = b;
    let t = s.focus_target_after_removal(c);
    // The most recently focused other tiling window is the target.
    let a_id = s.monitors()[0].workspaces[0].focus_order[1];
    assert_eq!(t, Some(a_id));
}

#[test]
fn detach_removes_the_window_and_rebalances() {
    let (mut s, a, _b, c) = three_window_state();
    let w = {
        let ws = &mut s.root_container.monitors[0].workspaces[0];
        ws.detach_window(c).unwrap()
    };
    assert_eq!(w.id, c);
    let ws = &s.monitors()[0].workspaces[0];
    let sizes = tiling_sizes_of(ws);
    assert_eq!(sizes.len(), 2);
    assert_eq!(sizes.iter().sum::<u32>(), FULL_SIZE);
    assert!(ws.find_window(c).is_none());
    assert!(ws.find_window(a).is_some());
}

#[test]
fn update_window_state_rejects_unknown_windows() {
    let (mut s, _a, _b, _c) = three_window_state();
    let r = s.update_window_state(424242, WindowState::Floating);
    assert_eq!(r, Err(WmError::WindowNotManaged));
}

#[test]
fn two_monitors_display_their_own_workspaces() {
    let mut s = WmState::new();
    let mut m2 = monitor_spec(200);
    m2.workspace_config = ws_config("2");
    s.populate(vec![monitor_spec(100), m2], &Vec::new(), 0).unwrap();
    assert_eq!(s.monitors().len(), 2);
    let m1 = &s.monitors()[0];
    let ws1 = &m1.workspaces[0];
    assert!(ws1.is_displayed(m1));
    // A window managed on the second monitor lands on its displayed
    // workspace, not the first monitor's.
    let m2_id = s.monitors()[1].id;
    let w = s.manage_window_on_monitor(m2_id, 55).unwrap();
    assert!(s.monitors()[1].workspaces[0].find_window(w).is_some());
    assert!(s.monitors()[0].workspaces[0].find_window(w).is_none());
    assert_eq!(s.monitor_from_native(200), Some(m2_id));
    assert_eq!(s.nearest_monitor(999), Some(s.monitors()[0].id));
}

#[test]
fn workspace_rect_subtracts_working_area_and_gaps() {
    let mut spec = monitor_spec(100);
    // A 40 px taskbar at the bottom.
    spec.working_rect = Rect { left: 0, top: 0, right: 1920, bottom: 1040 };
    let mut s = WmState::new();
    s.populate(vec![spec], &Vec::new(), 0).unwrap();
    let mut ws_gaps = gaps_none();
    ws_gaps.outer_gap.left = LengthUnit::Px(10);
    ws_gaps.outer_gap.top = LengthUnit::Percent(1);  // one percent of the height
    ws_gaps.outer_gap.right = LengthUnit::ScaledPx(10);
    s.root_container.monitors[0].workspaces[0].set_gaps_config(ws_gaps);
    let m = &s.monitors()[0];
    let rect = m.workspaces[0].to_rect(m);
    assert_eq!(rect.left, 10);
    assert_eq!(rect.top, 10);  // 1% of 1080, scale 100%
    assert_eq!(rect.right, 1920 - 10);
    assert_eq!(rect.bottom, 1040);
}

#[test]
fn container_by_id_resolves_each_kind() {
    let (s, a, _b, _c) = three_window_state();
    let m = s.monitors()[0].id;
    let ws = s.monitors()[0].workspaces[0].id;
    assert_eq!(s.container_by_id(m), Some(ContainerKind::Monitor));
    assert_eq!(s.container_by_id(ws), Some(ContainerKind::Workspace));
    assert_eq!(s.container_by_id(a), Some(ContainerKind::Window));
    assert_eq!(s.container_by_id(999999), None);
}

#[test]
fn redraw_queue_skips_detached_windows() {
    let (mut s, a, b, _c) = three_window_state();
    s.add_container_to_redraw(a);
    s.add_container_to_redraw(b);
    s.add_container_to_redraw(777777);
    assert_eq!(s.windows_to_redraw(), vec![a, b]);
    s.clear_containers_to_redraw();
    assert!(s.windows_to_redraw().is_empty());
}

#[test]
fn events_are_queued_and_drained() {
    let (mut s, _a, _b, _c) = three_window_state();
    let n = s.pending_events.len();
    s.emit_event(wm_core::tree::WmEvent::BindingModesChanged);
    assert_eq!(s.pending_events.len(), n + 1);
    let drained = s.take_pending_events();
    assert_eq!(drained.len(), n + 1);
    assert!(s.pending_events.is_empty());
}

#[test]
fn populate_focuses_the_foreground_window() {
    let mut s = WmState::new();
    let windows = vec![WindowSpec { handle: 31, monitor_handle: 100 }, WindowSpec {
        handle: 32,
        monitor_handle: 100,
    }];
    s.populate(vec![monitor_spec(100)], &windows, 32).unwrap();
    let e = s.window_from_native(32).unwrap();
    assert_eq!(s.focused_container(), Some(e.id));
    assert!(s.has_pending_focus_sync);
}

#[test]
fn boundary_px_is_monotone_and_exact_at_the_ends() {
    assert_eq!(boundary_px(1920, 0), 0);
    assert_eq!(boundary_px(1920, FULL_SIZE), 1920);
    assert_eq!(boundary_px(1920, 5000), 960);
    let mut last = 0;
    for cum in [0u32, 2500, 5000, 7500, 10000] {
        let b = boundary_px(1000, cum);
        assert!(b >= last);
        last = b;
    }
}

#[test]
fn length_units_convert_to_pixels() {
    assert_eq!(LengthUnit::Px(-7).to_px(1000, 100), -7);
    assert_eq!(LengthUnit::Percent(10).to_px(1000, 100), 100);
    assert_eq!(LengthUnit::ScaledPx(10).to_px(1000, 150), 15);
}

#[test]
fn min_tiling_size_is_one_percent() {
    assert_eq!(MIN_TILING_SIZE * 100, FULL_SIZE);
}

#[test]
fn tiling_group_has_a_capacity_limit() {
    // MIN_TILING_SIZE is one percent, so at most 100 tiling windows can
    // share a workspace; the next manage request is refused.
    let mut s = WmState::new();
    s.populate(vec![monitor_spec(100)], &Vec::new(), 0).unwrap();
    let m = s.monitors()[0].id;
    for h in 0..100u64 {
        s.manage_window_on_monitor(m, 1000 + h).unwrap();
    }
    let r = s.manage_window_on_monitor(m, 2000);
    assert_eq!(r, Err(WmError::InvalidTreeState));
    let ws = &s.monitors()[0].workspaces[0];
    let sizes = tiling_sizes_of(ws);
    assert_eq!(sizes.len(), 100);
    assert_eq!(sizes.iter().sum::<u32>(), FULL_SIZE);
    assert!(sizes.iter().all(|v| *v >= MIN_TILING_SIZE));
}

#[test]
fn workspace_dto_reports_geometry_and_order() {
    let (mut s, a, _b, c) = three_window_state();
    let _ = s.set_focused_descendant(c);
    let m = &s.monitors()[0];
    let ws = &m.workspaces[0];
    let dto = ws.to_dto(m, true);
    assert_eq!(dto.name, "1");
    assert_eq!((dto.x, dto.y, dto.width, dto.height), (0, 0, 1920, 1080));
    assert!(dto.is_displayed);
    assert_eq!(dto.children.len(), 3);
    assert_eq!(dto.child_focus_order[0], c);
    assert!(dto.children.contains(&a));
    assert!(matches!(dto.tiling_direction, TilingDirection::Horizontal));
}

#[test]
fn display_state_defaults_to_shown_for_managed_windows() {
    let (s, a, _b, _c) = three_window_state();
    let e = s.window_by_id(a).unwrap();
    assert!(matches!(e.display_state, DisplayState::Shown));
    assert!(matches!(e.state, WindowState::Tiling));
}

#[test]
fn windows_walks_into_split_containers() {
    // A split holding two windows: the window listing and the id lookups
    // see them, and the redraw queue expands the split to both.
    let (mut s, a, _b, _c) = three_window_state();
    let w1 = wm_core::tree::Window {
        id: 501,
        handle: 91,
        state: WindowState::Tiling,
        prev_state: WindowState::Tiling,
        display_state: DisplayState::Shown,
        tiling_size: 5000,
        floating_rect: Rect { left: 0, top: 0, right: 0, bottom: 0 },
        prev_tiling: None,
    };
    let mut w2 = w1;
    w2.id = 502;
    w2.handle = 92;
    let split = wm_core::tree::Split {
        id: 500,
        tiling_direction: TilingDirection::Vertical,
        tiling_size: 3000,
        children: vec![wm_core::tree::Tile::Window(w1), wm_core::tree::Tile::Window(w2)],
        focus_order: vec![501, 502],
    };
    // Attach the split as a second workspace child by hand; tests may
    // build trees directly through the public fields.
    let mut extra = Workspace::new(
        9000,
        ws_config("9"),
        gaps_none(),
        TilingDirection::Horizontal,
    );
    extra.children.push(wm_core::tree::Tile::Split(split));
    extra.focus_order.push(500);
    s.root_container.monitors[0].workspaces.push(extra);
    s.root_container.monitors[0].focus_order.push(9000);
    let listed: Vec<u64> = s.windows().iter().map(|e| e.id).collect();
    assert!(listed.contains(&a));
    assert!(listed.contains(&501));
    assert!(listed.contains(&502));
    assert_eq!(s.window_from_native(92).unwrap().id, 502);
    assert_eq!(s.container_by_id(501), Some(ContainerKind::Window));
    // Queueing the split redraws exactly its two windows, once each.
    s.clear_containers_to_redraw();
    s.add_container_to_redraw(500);
    s.add_container_to_redraw(500);
    assert_eq!(s.windows_to_redraw(), vec![501, 502]);
    // Queueing a workspace expands to all its windows.
    s.clear_containers_to_redraw();
    s.add_container_to_redraw(9000);
    assert_eq!(s.windows_to_redraw(), vec![501, 502]);
}

#[test]
fn focus_target_for_a_split_nested_focused_window() {
    // A window nested inside a split container is the focused container;
    // it still has a workspace, so a removal target is produced, chosen
    // from the workspace's descendant focus order.
    let (mut s, _a, _b, _c) = three_window_state();
    let w1 = wm_core::tree::Window {
        id: 601,
        handle: 81,
        state: WindowState::Tiling,
        prev_state: WindowState::Tiling,
        display_state: DisplayState::Shown,
        tiling_size: 5000,
        floating_rect: Rect { left: 0, top: 0, right: 0, bottom: 0 },
        prev_tiling: None,
    };
    let mut w2 = w1;
    w2.id = 602;
    w2.handle = 82;
    let split = wm_core::tree::Split {
        id: 600,
        tiling_direction: TilingDirection::Vertical,
        tiling_size: FULL_SIZE,
        children: vec![wm_core::tree::Tile::Window(w1), wm_core::tree::Tile::Window(w2)],
        focus_order: vec![601, 602],
    };
    let mut extra = Workspace::new(
        9100,
        ws_config("9"),
        gaps_none(),
        TilingDirection::Horizontal,
    );
    extra.children.push(wm_core::tree::Tile::Split(split));
    extra.focus_order.push(600);
    s.root_container.monitors[0].workspaces.push(extra);
    // Display the new workspace and focus its subtree.
    s.root_container.monitors[0].focus_order.insert(0, 9100);
    assert_eq!(s.focused_container(), Some(601));
    // The nested focused window gets a removal target: the other window
    // of the split, which shares its state kind.
    assert_eq!(s.focus_target_after_removal(601), Some(602));
    // The split container's id resolves.
    assert_eq!(s.container_by_id(600), Some(ContainerKind::Split));
    // A split at the workspace's tiling root is a valid resize target
    // (an only tiling child: the resize is a no-op).
    assert!(s.resize_tiling_container(600, 1000));
}

#[test]
fn insert_scaling_follows_the_design_rule() {
    // Scaling by n/(n+1): from [6000, 4000] the members keep two thirds
    // and the newcomer takes the remainder.
    let mut sizes: Vec<u32> = vec![6000, 4000];
    let newcomer = insert_tiling_size(&mut sizes);
    assert_eq!(sizes, vec![4000, 2666]);
    assert_eq!(newcomer, 10000 - 4000 - 2666);
}
