//! Core of a tiling window manager: the container tree (root, monitors,
//! workspaces, split containers, windows), the tiling size arithmetic that
//! keeps every sibling group summing to one, the focus engine, and the
//! event-handling decisions.
//!
//! Tiling sizes are fractions of the parent's primary axis, stored in
//! fixed-point units of `1/FULL_SIZE`; timestamps are plain milliseconds.
//! The platform shell feeds events in as plain values and carries the
//! resulting redraw and focus work back to the operating system.

pub mod events;
pub mod focus;
pub mod geometry;
pub mod workspace;
pub mod ops;
pub mod sizing;
pub mod state;
pub mod tree;

use vstd::prelude::*;

verus! {

/// A full tiling fraction: sizes in a sibling group sum to exactly this.
pub const FULL_SIZE: u32 = 10000;

/// Smallest tiling fraction a container may hold (one percent).
pub const MIN_TILING_SIZE: u32 = 100;

/// Grace period after an unmanage/minimize during which OS-initiated
/// focus events are vetoed, in milliseconds.
pub const FOCUS_OVERRIDE_GRACE_MS: u64 = 100;

} // verus!
