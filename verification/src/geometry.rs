//! Pixel geometry: points, offsets and the bounding rectangle a layout
//! pass works inside.

use vstd::prelude::*;

verus! {

/// Largest pixel coordinate a layout rectangle may use. Keeping coordinates
/// well inside `i32` range lets the layout arithmetic be shown free of
/// overflow.
pub const MAX_COORD: i32 = 1_000_000;

/// A pixel position.
#[derive(Clone, Copy, PartialEq, Eq, Structural, Debug)]
pub struct Point {
    pub x: i32,
    pub y: i32,
}

impl Point {
    pub fn new(x: i32, y: i32) -> (r: Point)
        ensures
            r == (Point { x, y }),
    {
        Point { x, y }
    }
}

/// A relative pixel offset.
#[derive(Clone, Copy, PartialEq, Eq, Structural, Debug)]
pub struct Offset {
    pub x: i32,
    pub y: i32,
}

impl Offset {
    pub fn new(x: i32, y: i32) -> (r: Offset)
        ensures
            r == (Offset { x, y }),
    {
        Offset { x, y }
    }
}

/// An axis-aligned rectangle: `x0,y0` is the top-left corner, `x1,y1` the
/// bottom-right one.
#[derive(Clone, Copy, PartialEq, Eq, Structural, Debug)]
pub struct Rect {
    pub x0: i32,
    pub y0: i32,
    pub x1: i32,
    pub y1: i32,
}

impl Rect {
    /// A rectangle the layout engine can work inside: non-negative, properly
    /// ordered corners within the coordinate limit.
    pub open spec fn wf(&self) -> bool {
        &&& 0 <= self.x0 <= self.x1 <= MAX_COORD
        &&& 0 <= self.y0 <= self.y1 <= MAX_COORD
    }

    pub fn new(x0: i32, y0: i32, x1: i32, y1: i32) -> (r: Rect)
        ensures
            r == (Rect { x0, y0, x1, y1 }),
    {
        Rect { x0, y0, x1, y1 }
    }

    pub fn top_left(&self) -> (r: Point)
        ensures
            r == (Point { x: self.x0, y: self.y0 }),
    {
        Point { x: self.x0, y: self.y0 }
    }
}

} // verus!
