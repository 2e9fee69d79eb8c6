//! OS-event handling. A focus event is both input and output: the OS
//! reports that a window gained focus, and the WM decides whether to
//! accept it, veto it (within the grace period after an unmanage or
//! minimize), or switch workspaces first.

use vstd::prelude::*;

use crate::state::{
    all_window_entries, find_entry_by_handle, find_tile_position, focused_container_spec,
    focused_leaf, lemma_find_entry_is_member, tile_with_id_at, within_grace, WindowEntry, WmState,
};
use crate::tree::{DisplayState, WindowState, WmError, WmEvent};

verus! {

/// Whether no window of the tree is fullscreen; then a focus event never
/// triggers a demotion.
pub open spec fn no_fullscreen_entry(s: WmState) -> bool {
    forall|j: int|
        0 <= j < all_window_entries(s.root_container.monitors@).len() ==> (
        #[trigger] all_window_entries(s.root_container.monitors@)[j]).state
            != WindowState::Fullscreen
}

/// Handle the OS reporting that a window gained focus.
///
/// The event is dropped when the window is unmanaged, being hidden by
/// the WM itself, or already the WM's focused container. If the focused
/// container of the window's workspace is a fullscreen window, that
/// window is minimized first (the state-machine rule; the narrative
/// description of this interaction instead restores the previous state
/// — where the two disagree, the state machine is followed). Within the
/// grace period after an unmanage or minimize the event is vetoed: only
/// the pending focus-sync flag is raised, so the reconciler restores the
/// WM's own focus target. Otherwise the WM records focus on the window,
/// queues a `FocusChanged` event, and requests a native focus sync.
pub fn handle_window_focused(native_window: u64, state: &mut WmState, now_ms: u64) -> (r: Result<
    (),
    WmError,
>)
    requires
        crate::state::wm_wf(*old(state)),
    ensures
        crate::state::wm_wf(*final(state)),
        crate::state::same_skeleton(
            old(state).root_container.monitors@,
            final(state).root_container.monitors@,
        ),
        final(state).unmanaged_or_minimized_timestamp == old(
            state,
        ).unmanaged_or_minimized_timestamp,
        final(state).binding_modes@ == old(state).binding_modes@,
        final(state).active_border_window == old(state).active_border_window,
        final(state).containers_to_redraw@ == old(state).containers_to_redraw@,
        final(state).next_id == old(state).next_id,
        find_entry_by_handle(
            all_window_entries(old(state).root_container.monitors@),
            0,
            native_window,
        ) is None ==> *final(state) == *old(state) && r is Ok,
        ({
            let found = find_entry_by_handle(
                all_window_entries(old(state).root_container.monitors@),
                0,
                native_window,
            );
            found is Some ==> {
                let e = found->0;
                &&& (e.display_state == DisplayState::Hiding || focused_container_spec(
                    old(state).root_container,
                ) == Some(e.id)) ==> *final(state) == *old(state) && r is Ok
                &&& (e.display_state != DisplayState::Hiding && focused_container_spec(
                    old(state).root_container,
                ) != Some(e.id) && no_fullscreen_entry(*old(state)) && within_grace(
                    old(state).unmanaged_or_minimized_timestamp,
                    now_ms,
                )) ==> *final(state) == (WmState {
                    has_pending_focus_sync: true,
                    ..*old(state)
                }) && r is Ok
                &&& (e.display_state != DisplayState::Hiding && focused_container_spec(
                    old(state).root_container,
                ) != Some(e.id) && no_fullscreen_entry(*old(state)) && !within_grace(
                    old(state).unmanaged_or_minimized_timestamp,
                    now_ms,
                ) && (exists|mi: int, wi: int, ci: int|
                    #[trigger] tile_with_id_at(
                        old(state).root_container.monitors@,
                        mi,
                        wi,
                        ci,
                        e.id,
                    ))) ==> {
                    &&& r is Ok
                    &&& final(state).has_pending_focus_sync
                    &&& final(state).pending_events@ == old(state).pending_events@.push(
                        WmEvent::FocusChanged { container_id: e.id },
                    )
                    &&& all_window_entries(final(state).root_container.monitors@)
                        == all_window_entries(old(state).root_container.monitors@)
                    &&& exists|mi: int, wi: int|
                        #![trigger old(state).root_container.monitors@[mi].workspaces@[wi]]
                        {
                            let ms0 = old(state).root_container.monitors@;
                            let msf = final(state).root_container.monitors@;
                            &&& 0 <= mi < ms0.len()
                            &&& 0 <= wi < ms0[mi].workspaces@.len()
                            &&& final(state).root_container.focus_order@.len() > 0
                            &&& final(state).root_container.focus_order@[0] == ms0[mi].id
                            &&& msf[mi].focus_order@.len() > 0
                            &&& msf[mi].focus_order@[0] == ms0[mi].workspaces@[wi].id
                            &&& msf[mi].workspaces@[wi].focus_order@.len() > 0
                            &&& msf[mi].workspaces@[wi].focus_order@[0] == e.id
                        }
                }
            }
        }),
{
    let found = state.window_from_native(native_window);
    let e: WindowEntry = match found {
        Some(e) => e,
        None => {
            // Not managed by the WM: nothing to do.
            return Ok(());
        },
    };
    // Ignore the event while the WM itself is hiding the window, or when
    // focus already rests on it.
    if matches!(e.display_state, DisplayState::Hiding) {
        return Ok(());
    }
    let focused = state.focused_container();
    let already = match focused {
        Some(f) => f == e.id,
        None => false,
    };
    if already {
        return Ok(());
    }
    // Another window gained focus while the focused container of its
    // workspace is a fullscreen window: minimize the fullscreen window.
    let mut ws_focused: Option<u64> = None;
    let mut searching = true;
    let n = state.root_container.monitors.len();
    let mut mi: usize = 0;
    while mi < n && searching
        invariant
            mi <= n,
            n == state.root_container.monitors@.len(),
            *state == *old(state),
        decreases n - mi, (if searching {
            1int
        } else {
            0int
        }),
    {
        let k = state.root_container.monitors[mi].workspaces.len();
        let mut wi: usize = 0;
        while wi < k && searching
            invariant
                wi <= k,
                mi < n,
                n == state.root_container.monitors@.len(),
                k == state.root_container.monitors@[mi as int].workspaces@.len(),
                *state == *old(state),
            decreases k - wi, (if searching {
                1int
            } else {
                0int
            }),
        {
            let hit = state.root_container.monitors[mi].workspaces[wi].find_window(e.id);
            match hit {
                Some(_ci) => {
                    searching = false;
                    let ws = &state.root_container.monitors[mi].workspaces[wi];
                    if ws.focus_order.len() > 0 {
                        let front = ws.focus_order[0];
                        let pos = find_tile_position(&ws.children, front);
                        match pos {
                            Some(fi) => {
                                ws_focused = Some(focused_leaf(&ws.children[fi]));
                            },
                            None => {},
                        }
                    }
                },
                None => {
                    wi = wi + 1;
                },
            }
        }
        if searching {
            mi = mi + 1;
        }
    }
    match ws_focused {
        Some(fid) => {
            if fid != e.id {
                let fe = state.window_by_id(fid);
                match fe {
                    Some(fentry) => {
                        proof {
                            lemma_find_entry_is_member(
                                all_window_entries(state.root_container.monitors@),
                                fid,
                                0,
                            );
                        }
                        if matches!(fentry.state, WindowState::Fullscreen) {
                            let res = state.update_window_state(fid, WindowState::Minimized);
                            if res.is_err() {
                                return res;
                            }
                        }
                    },
                    None => {},
                }
            }
        },
        None => {},
    }
    // Within the grace period after an unmanage or minimize, the OS (or
    // the closing application) picked this focus target on its own: veto
    // it and let the reconciler restore the WM's target.
    let vetoed = match state.unmanaged_or_minimized_timestamp {
        Some(t) => t <= now_ms && now_ms - t < crate::FOCUS_OVERRIDE_GRACE_MS,
        None => false,
    };
    if vetoed {
        state.has_pending_focus_sync = true;
        return Ok(());
    }
    // A window on a hidden workspace was forced to the front: recording
    // focus promotes the whole chain, which makes its workspace the
    // displayed one of its monitor. The event is announced only when
    // focus was actually recorded.
    let ghost before_focus = state.root_container.monitors@;
    let recorded = state.set_focused_descendant(e.id);
    proof {
        crate::state::lemma_same_skeleton_trans(
            old(state).root_container.monitors@,
            before_focus,
            state.root_container.monitors@,
        );
    }
    if recorded {
        state.emit_event(WmEvent::FocusChanged { container_id: e.id });
    }
    state.has_pending_focus_sync = true;
    Ok(())
}

} // verus!
