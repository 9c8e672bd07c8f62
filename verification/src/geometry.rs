//! Places and boxes, and the overlap of two boxes whose sides are parallel to the axes.

use vstd::prelude::*;

verus! {

/// A place over the integers.
pub struct Point {
    pub x: int,
    pub y: int,
}

/// A box, given by its centre and its size.
#[derive(Clone, Copy, Debug, PartialEq, Eq)]
pub struct Rect {
    pub x: i64,
    pub y: i64,
    pub width: i64,
    pub height: i64,
}

/// A box over the integers.
pub struct RectView {
    pub x: int,
    pub y: int,
    pub width: int,
    pub height: int,
}

impl View for Rect {
    type V = RectView;

    open spec fn view(&self) -> RectView {
        RectView {
            x: self.x as int,
            y: self.y as int,
            width: self.width as int,
            height: self.height as int,
        }
    }
}

impl RectView {
    /// Whether the two boxes share a point of their interiors: on each axis
    /// the lower edge of either box lies strictly below the upper edge of the
    /// other. An edge lies half a size from the centre, so both sides are
    /// doubled to stay within whole numbers.
    pub open spec fn overlaps(self, other: RectView) -> bool {
        &&& 2 * self.x - self.width < 2 * other.x + other.width
        &&& 2 * self.x + self.width > 2 * other.x - other.width
        &&& 2 * self.y - self.height < 2 * other.y + other.height
        &&& 2 * self.y + self.height > 2 * other.y - other.height
    }
}

/// Tells whether two boxes collide.
pub fn collide(a: Rect, b: Rect) -> (hit: bool)
    ensures
        hit == a@.overlaps(b@),
{
    let ax: i128 = 2 * (a.x as i128);
    let ay: i128 = 2 * (a.y as i128);
    let bx: i128 = 2 * (b.x as i128);
    let by: i128 = 2 * (b.y as i128);
    let aw: i128 = a.width as i128;
    let ah: i128 = a.height as i128;
    let bw: i128 = b.width as i128;
    let bh: i128 = b.height as i128;
    ax - aw < bx + bw && ax + aw > bx - bw && ay - ah < by + bh && ay + ah > by - bh
}

} // verus!
