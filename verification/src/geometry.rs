//! Geometry primitives: rectangles in integer device pixels, length units
//! (absolute, percentage of a reference extent, DPI-scaled), and the
//! arithmetic that turns tiling fractions into pixel partitions.

use vstd::prelude::*;

use crate::FULL_SIZE;

verus! {

/// Largest coordinate magnitude the geometry functions accept; keeps all
/// intermediate pixel arithmetic inside `i64` and results inside `i32`.
pub const MAX_COORD: i32 = 1000000;

/// Largest DPI scale the geometry functions accept, in percent (80x).
pub const MAX_SCALE_PCT: u32 = 8000;

/// A rectangle in integer device pixels, as left/top/right/bottom edges.
#[derive(Clone, Copy, Debug, PartialEq, Eq, Structural)]
pub struct Rect {
    pub left: i32,
    pub top: i32,
    pub right: i32,
    pub bottom: i32,
}

/// Whether a rectangle's edges are ordered and within coordinate bounds.
pub open spec fn rect_wf(r: Rect) -> bool {
    &&& -MAX_COORD <= r.left <= r.right <= MAX_COORD
    &&& -MAX_COORD <= r.top <= r.bottom <= MAX_COORD
}

impl Rect {
    pub fn from_ltrb(left: i32, top: i32, right: i32, bottom: i32) -> (r: Rect)
        ensures
            r == (Rect { left, top, right, bottom }),
    {
        Rect { left, top, right, bottom }
    }

    pub fn width(&self) -> (w: i32)
        requires
            rect_wf(*self),
        ensures
            w == self.right - self.left,
    {
        self.right - self.left
    }

    pub fn height(&self) -> (h: i32)
        requires
            rect_wf(*self),
        ensures
            h == self.bottom - self.top,
    {
        self.bottom - self.top
    }

    pub fn x(&self) -> (x: i32)
        ensures
            x == self.left,
    {
        self.left
    }

    pub fn y(&self) -> (y: i32)
        ensures
            y == self.top,
    {
        self.top
    }

    /// Component-wise difference against another rectangle, as absolute
    /// pixel lengths: how far each of `self`'s edges sits from `other`'s.
    pub fn delta(&self, other: &Rect) -> (d: RectDelta)
        requires
            rect_wf(*self),
            rect_wf(*other),
        ensures
            d.left == LengthUnit::Px((self.left - other.left) as i32),
            d.top == LengthUnit::Px((self.top - other.top) as i32),
            d.right == LengthUnit::Px((self.right - other.right) as i32),
            d.bottom == LengthUnit::Px((self.bottom - other.bottom) as i32),
    {
        RectDelta {
            left: LengthUnit::Px(self.left - other.left),
            top: LengthUnit::Px(self.top - other.top),
            right: LengthUnit::Px(self.right - other.right),
            bottom: LengthUnit::Px(self.bottom - other.bottom),
        }
    }
}

/// A length per edge, e.g. the gap between a workspace and its monitor's
/// bounds, or the inset of a monitor's working area.
#[derive(Clone, Copy, Debug, PartialEq, Eq, Structural)]
pub struct RectDelta {
    pub left: LengthUnit,
    pub top: LengthUnit,
    pub right: LengthUnit,
    pub bottom: LengthUnit,
}

/// A one-dimensional length: absolute pixels, a percentage of a reference
/// extent (`Percent(50)` is half of it), or absolute pixels to be
/// multiplied by the monitor's DPI scale (in percent, `150` = 1.5x).
#[derive(Clone, Copy, Debug, PartialEq, Eq, Structural)]
pub enum LengthUnit {
    Px(i32),
    Percent(i32),
    ScaledPx(i32),
}

/// The pixel value of a length against a reference extent and a DPI scale.
pub open spec fn length_to_px(u: LengthUnit, extent: int, scale_pct: int) -> int {
    match u {
        LengthUnit::Px(v) => v as int,
        LengthUnit::Percent(p) => extent * p / 100,
        LengthUnit::ScaledPx(v) => v * scale_pct / 100,
    }
}

/// Whether a length's stored value is within the accepted magnitude, with
/// percentages and scaled lengths kept non-negative so that truncating and
/// euclidean division agree.
pub open spec fn length_wf(u: LengthUnit) -> bool {
    match u {
        LengthUnit::Px(v) => -2 * MAX_COORD <= v <= 2 * MAX_COORD,
        LengthUnit::Percent(p) => 0 <= p <= 10000,
        LengthUnit::ScaledPx(v) => 0 <= v <= MAX_COORD,
    }
}

impl LengthUnit {
    /// Pixel value of this length given a reference extent (the width for
    /// horizontal insets, the height for vertical ones) and a DPI scale in
    /// percent. Percentages use the passed extent; the scale applies only
    /// to `ScaledPx`.
    pub fn to_px(&self, extent: i32, scale_pct: u32) -> (px: i32)
        requires
            length_wf(*self),
            0 <= extent <= 2 * MAX_COORD,
            scale_pct <= MAX_SCALE_PCT,
        ensures
            px == length_to_px(*self, extent as int, scale_pct as int),
            -2000000 <= px <= 200000000,
    {
        match self {
            LengthUnit::Px(v) => *v,
            LengthUnit::Percent(p) => {
                proof {
                    assert(0 <= (extent as int) * (*p as int) <= 20000000000int) by (nonlinear_arith)
                        requires
                            0 <= extent <= 2 * MAX_COORD,
                            0 <= *p <= 10000,
                    ;
                }
                let wide: i64 = (extent as i64) * (*p as i64) / 100;
                wide as i32
            },
            LengthUnit::ScaledPx(v) => {
                proof {
                    assert(0 <= (*v as int) * (scale_pct as int) <= 8000000000int)
                        by (nonlinear_arith)
                        requires
                            0 <= *v <= MAX_COORD,
                            0 <= scale_pct <= MAX_SCALE_PCT,
                    ;
                }
                let wide: i64 = (*v as i64) * (scale_pct as i64) / 100;
                wide as i32
            },
        }
    }
}

/// The boundary pixel of a cumulative tiling fraction `cum` (out of
/// `FULL_SIZE`) within an extent: the nearest-integer scaling of the
/// fraction, so that a group of children partitions the extent without
/// gaps or overlaps.
pub open spec fn scaled_boundary(extent: int, cum: int) -> int {
    (extent * cum + (FULL_SIZE as int) / 2) / (FULL_SIZE as int)
}

/// Nearest-integer scaling of one cumulative fraction, as executable code.
pub fn boundary_px(extent: i32, cum: u32) -> (px: i32)
    requires
        0 <= extent <= MAX_COORD,
        cum <= FULL_SIZE,
    ensures
        px == scaled_boundary(extent as int, cum as int),
        0 <= px <= extent,
        cum == 0 ==> px == 0,
        cum == FULL_SIZE ==> px == extent,
{
    proof {
        assert(0 <= (extent as int) * (cum as int) <= 10000000000int) by (nonlinear_arith)
            requires
                0 <= extent <= MAX_COORD,
                0 <= cum <= FULL_SIZE,
        ;
        assert((extent as int) * (cum as int) <= (extent as int) * 10000) by (nonlinear_arith)
            requires
                0 <= extent,
                cum <= 10000,
        ;
        assert(0 <= ((extent as int) * (cum as int) + 5000) / 10000 <= extent) by (nonlinear_arith)
            requires
                0 <= (extent as int) * (cum as int),
                0 <= extent,
                0 <= cum <= 10000,
                (extent as int) * (cum as int) <= (extent as int) * 10000,
        ;
        if cum == FULL_SIZE {
            assert(((extent as int) * 10000 + 5000) / 10000 == extent) by (nonlinear_arith)
                requires
                    0 <= extent,
            ;
        }
    }
    let wide: i64 = ((extent as i64) * (cum as i64) + 5000) / 10000;
    wide as i32
}

} // verus!
