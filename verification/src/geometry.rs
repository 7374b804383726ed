//! Points and pointer boxes, and moving a box from bitmap to screen coordinates.
use vstd::prelude::*;

verus! {

/// A point with integer coordinates.
#[derive(Copy, Clone, Debug, PartialEq, Eq, Structural, PartialOrd, Ord, Hash)]
pub struct Point {
    pub x: i32,
    pub y: i32,
}

impl Default for Point {
    fn default() -> (p: Point)
        ensures p.x == 0 && p.y == 0,
    {
        Point { x: 0, y: 0 }
    }
}

/// The real bounding box of a mouse pointer around its drawn pixels, not the
/// nominal bitmap that contains it, with the pointer's hot spot.
#[derive(Copy, Clone, Debug, PartialEq, Eq, Structural, PartialOrd, Ord, Hash)]
pub struct cur_box {
    /// Top-left corner.
    pub ptl: Point,
    /// Bottom-right corner (inclusive).
    pub pbr: Point,
    /// The hot spot, in the same coordinates as the corners.
    pub hs: Point,
}

impl Default for cur_box {
    fn default() -> (b: cur_box)
        ensures b == (cur_box { ptl: Point { x: 0, y: 0 }, pbr: Point { x: 0, y: 0 }, hs: Point { x: 0, y: 0 } }),
    {
        cur_box { ptl: Point::default(), pbr: Point::default(), hs: Point::default() }
    }
}

pub open spec fn fits_i32(v: int) -> bool {
    i32::MIN <= v <= i32::MAX
}

/// Moving `b` so that its hot spot lands on `hs` stays within `i32`.
pub open spec fn to_screen_fits(b: cur_box, hs: Point) -> bool {
    let dx = hs.x - b.hs.x;
    let dy = hs.y - b.hs.y;
    &&& fits_i32(dx)
    &&& fits_i32(dy)
    &&& fits_i32(b.ptl.x + dx)
    &&& fits_i32(b.ptl.y + dy)
    &&& fits_i32(b.pbr.x + dx)
    &&& fits_i32(b.pbr.y + dy)
}

/// Whether moving `b` so that its hot spot lands on `hs` stays within `i32`.
pub fn fits_to_screen(b: &cur_box, hs: &Point) -> (r: bool)
    ensures
        r == to_screen_fits(*b, *hs),
{
    let dx = hs.x as i64 - b.hs.x as i64;
    let dy = hs.y as i64 - b.hs.y as i64;
    let lo = i32::MIN as i64;
    let hi = i32::MAX as i64;
    lo <= dx && dx <= hi && lo <= dy && dy <= hi && lo <= b.ptl.x as i64 + dx && b.ptl.x as i64 + dx <= hi
        && lo <= b.ptl.y as i64 + dy && b.ptl.y as i64 + dy <= hi && lo <= b.pbr.x as i64 + dx && b.pbr.x as i64
        + dx <= hi && lo <= b.pbr.y as i64 + dy && b.pbr.y as i64 + dy <= hi
}

/// `b` translated so that its hot spot lands on `hs`.
pub open spec fn to_screen(b: cur_box, hs: Point) -> cur_box {
    let dx = hs.x - b.hs.x;
    let dy = hs.y - b.hs.y;
    cur_box {
        ptl: Point { x: (b.ptl.x + dx) as i32, y: (b.ptl.y + dy) as i32 },
        pbr: Point { x: (b.pbr.x + dx) as i32, y: (b.pbr.y + dy) as i32 },
        hs,
    }
}

/// Converts a box in bitmap coordinates to screen coordinates, given where
/// its hot spot is on screen.
pub fn cur_box_to_screen(cbox: &mut cur_box, hs_screen: &Point)
    requires
        to_screen_fits(*old(cbox), *hs_screen),
    ensures
        *final(cbox) == to_screen(*old(cbox), *hs_screen),
{
    let icon_box_x = hs_screen.x - cbox.hs.x;
    let icon_box_y = hs_screen.y - cbox.hs.y;
    cbox.ptl.x = cbox.ptl.x + icon_box_x;
    cbox.ptl.y = cbox.ptl.y + icon_box_y;
    cbox.pbr.x = cbox.pbr.x + icon_box_x;
    cbox.pbr.y = cbox.pbr.y + icon_box_y;
    cbox.hs.x = hs_screen.x;
    cbox.hs.y = hs_screen.y;
}

/// Moving to the screen keeps the box's size and the corners' offsets from the
/// hot spot, and puts the hot spot on the given point.
pub proof fn lemma_to_screen_keeps_shape(b: cur_box, hs: Point)
    requires
        to_screen_fits(b, hs),
    ensures
        to_screen(b, hs).hs == hs,
        to_screen(b, hs).pbr.x - to_screen(b, hs).ptl.x == b.pbr.x - b.ptl.x,
        to_screen(b, hs).pbr.y - to_screen(b, hs).ptl.y == b.pbr.y - b.ptl.y,
        to_screen(b, hs).ptl.x - hs.x == b.ptl.x - b.hs.x,
        to_screen(b, hs).ptl.y - hs.y == b.ptl.y - b.hs.y,
        to_screen(b, hs).pbr.x - hs.x == b.pbr.x - b.hs.x,
        to_screen(b, hs).pbr.y - hs.y == b.pbr.y - b.hs.y,
{
}

/// Moving a box twice is moving it once to the last point.
pub proof fn lemma_to_screen_twice(b: cur_box, p: Point, q: Point)
    requires
        to_screen_fits(b, p),
        to_screen_fits(to_screen(b, p), q),
        to_screen_fits(b, q),
    ensures
        to_screen(to_screen(b, p), q) == to_screen(b, q),
{
}

/// Moving a box onto its own hot spot leaves it unchanged.
pub proof fn lemma_to_screen_in_place(b: cur_box)
    ensures
        to_screen_fits(b, b.hs),
        to_screen(b, b.hs) == b,
{
}

} // verus!
