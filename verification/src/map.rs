//! The playable map rectangle.
//!
//! Grid ingestion and pathing storage stay with the environment; the
//! engine only needs the playable area's dimensions and origin, for
//! clamping points and for the uniform-random fallback attack target.
use vstd::prelude::*;

use crate::geom::{Pos, COORD_LIMIT};

verus! {

/// The playable area: an axis-aligned rectangle of the map, in
/// fixed-point coordinates.
#[derive(Clone, Copy, PartialEq, Eq, Structural, Debug)]
pub struct MapInfo {
    pub width: u64,
    pub height: u64,
    /// Coordinates of the rectangle's lower corner.
    pub zero_offset: Pos,
}

/// A point already clamped into the playable rectangle, relative to its
/// origin.
#[derive(Clone, Copy, PartialEq, Eq, Structural, Debug)]
pub struct TrimmedPoint {
    point: Pos,
}

impl TrimmedPoint {
    pub closed spec fn spec_point(self) -> Pos {
        self.point
    }
}

/// Clamp `v` into `[0, hi]`.
pub open spec fn spec_clamp(v: int, hi: int) -> int {
    if v < 0 {
        0
    } else if v > hi {
        hi
    } else {
        v
    }
}

impl MapInfo {
    /// The rectangle fits within the coordinate bounds.
    pub open spec fn wf(self) -> bool {
        &&& self.zero_offset.in_bounds()
        &&& self.zero_offset.x + self.width <= COORD_LIMIT
        &&& self.zero_offset.y + self.height <= COORD_LIMIT
    }

    pub fn new(width: u64, height: u64, zero_offset: Pos) -> (r: MapInfo)
        requires
            zero_offset.in_bounds(),
            zero_offset.x + width <= COORD_LIMIT,
            zero_offset.y + height <= COORD_LIMIT,
        ensures
            r == (MapInfo { width, height, zero_offset }),
            r.wf(),
    {
        MapInfo { width, height, zero_offset }
    }

    /// Shift a point to rectangle-relative coordinates and clamp it into
    /// the rectangle.
    pub fn normalize_point(&self, point: Pos) -> (r: TrimmedPoint)
        requires
            self.wf(),
            point.in_bounds(),
        ensures
            r.spec_point().x == spec_clamp(point.x - self.zero_offset.x, self.width as int),
            r.spec_point().y == spec_clamp(point.y - self.zero_offset.y, self.height as int),
    {
        let rx: i64 = point.x - self.zero_offset.x;
        let ry: i64 = point.y - self.zero_offset.y;
        let cx: i64 = if rx < 0 {
            0
        } else if rx > (self.width as i64) {
            self.width as i64
        } else {
            rx
        };
        let cy: i64 = if ry < 0 {
            0
        } else if ry > (self.height as i64) {
            self.height as i64
        } else {
            ry
        };
        TrimmedPoint { point: Pos { x: cx, y: cy } }
    }

    /// Shift a rectangle-relative point back to map coordinates.
    pub fn extract_point(&self, trimmed_point: TrimmedPoint) -> (r: Pos)
        requires
            self.wf(),
            0 <= trimmed_point.spec_point().x <= self.width,
            0 <= trimmed_point.spec_point().y <= self.height,
        ensures
            r.x == trimmed_point.spec_point().x + self.zero_offset.x,
            r.y == trimmed_point.spec_point().y + self.zero_offset.y,
            r.in_bounds(),
    {
        Pos {
            x: trimmed_point.point.x + self.zero_offset.x,
            y: trimmed_point.point.y + self.zero_offset.y,
        }
    }

    /// A uniformly random point of the rectangle.  Nothing more than the
    /// bounds can be promised of it.
    pub fn get_random_point(&self) -> (r: Pos)
        requires
            self.wf(),
        ensures
            r.in_bounds(),
            self.zero_offset.x <= r.x <= self.zero_offset.x + self.width,
            self.zero_offset.y <= r.y <= self.zero_offset.y + self.height,
            self.width > 0 ==> r.x < self.zero_offset.x + self.width,
            self.height > 0 ==> r.y < self.zero_offset.y + self.height,
    {
        let x: u64 = if self.width == 0 {
            0
        } else {
            random_below(self.width)
        };
        let y: u64 = if self.height == 0 {
            0
        } else {
            random_below(self.height)
        };
        self.extract_point(TrimmedPoint { point: Pos { x: x as i64, y: y as i64 } })
    }

    /// The centre of the rectangle.
    pub fn midpoint(&self) -> (r: Pos)
        requires
            self.wf(),
        ensures
            r == spec_midpoint(*self),
            r.in_bounds(),
    {
        Pos {
            x: self.zero_offset.x + ((self.width / 2) as i64),
            y: self.zero_offset.y + ((self.height / 2) as i64),
        }
    }
}

/// The centre of the playable rectangle.
pub open spec fn spec_midpoint(m: MapInfo) -> Pos {
    Pos {
        x: (m.zero_offset.x + m.width / 2) as i64,
        y: (m.zero_offset.y + m.height / 2) as i64,
    }
}

/// Relies on rand's `Rng::gen_range` over `0..n`: returns a uniformly
/// random value of the non-empty range, so the result is below `n`.
#[verifier::external_body]
fn random_below(n: u64) -> (r: u64)
    requires
        n > 0,
    ensures
        r < n,
{
    rand::Rng::gen_range(&mut rand::thread_rng(), 0..n)
}

} // verus!
