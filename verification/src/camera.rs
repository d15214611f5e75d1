//! The camera: a viewport of whole pixels around a centre that is kept in
//! sub-pixel units, so that a centre between two pixels has an exact value.

use vstd::prelude::*;

verus! {

/// Sub-pixel units in one pixel. World positions of the camera and of moving
/// entities are integers in these units.
pub const SUBPIXEL: i32 = 256;

/// The whole pixels in a sub-pixel coordinate, rounded toward zero.
pub open spec fn whole_pixels(v: int) -> int {
    if v >= 0 {
        v / (SUBPIXEL as int)
    } else {
        -((-v) / (SUBPIXEL as int))
    }
}

/// The whole pixels in a sub-pixel coordinate, rounded toward zero.
pub fn to_pixels(v: i32) -> (p: i32)
    ensures
        p == whole_pixels(v as int),
{
    if v >= 0 {
        v / SUBPIXEL
    } else {
        let n: i64 = -(v as i64);
        (-(n / (SUBPIXEL as i64))) as i32
    }
}

/// The sub-pixel coordinate of the left or top edge of a whole pixel.
pub fn from_pixels(p: i16) -> (v: i32)
    ensures
        v == p * SUBPIXEL,
        whole_pixels(v as int) == p,
{
    (p as i32) * SUBPIXEL
}

/// A rectangular viewport on the world.
#[derive(Clone, Copy, Debug, PartialEq, Eq, Structural)]
pub struct Camera {
    /// Centre of the view, in sub-pixel units.
    pub center_x: i32,
    /// Centre of the view, in sub-pixel units.
    pub center_y: i32,
    /// Width of the viewport in pixels.
    pub width: u16,
    /// Height of the viewport in pixels.
    pub height: u16,
}

/// `floor(center - extent / 2)` in whole pixels, for a centre in sub-pixel
/// units and an extent in pixels.
pub open spec fn view_start(center: int, extent: int) -> int {
    (2 * center - extent * (SUBPIXEL as int)) / (2 * (SUBPIXEL as int))
}

/// Whether a point at sub-pixel distance `center - v` from the centre lies
/// strictly less than half of `extent` pixels away from it.
pub open spec fn within_half(center: int, v: int, extent: int) -> bool {
    let d = if center >= v {
        center - v
    } else {
        v - center
    };
    2 * d < extent * (SUBPIXEL as int)
}

/// The sub-pixel length of `extent` pixels.
fn pixel_span(extent: u16) -> (span: i64)
    ensures
        span == extent * (SUBPIXEL as int),
        0 <= span <= 65535 * 256,
{
    assert(extent * (SUBPIXEL as int) == extent * 256);
    (extent as i64) * 256
}

fn start_of(center: i32, extent: u16) -> (s: i32)
    ensures
        s == view_start(center as int, extent as int),
{
    let span: i64 = pixel_span(extent);
    let n: i64 = 2 * (center as i64) - span;
    let d: i64 = 2 * (SUBPIXEL as i64);
    if n >= 0 {
        (n / d) as i32
    } else {
        // Round toward minus infinity.
        let m: i64 = -n;
        let q: i64 = (m + d - 1) / d;
        assert(-q == n / d) by (nonlinear_arith)
            requires
                d == 512,
                m == -n,
                m > 0,
                q == (m + d - 1) / (d as int),
        ;
        (-q) as i32
    }
}

fn near(center: i32, v: i32, extent: u16) -> (r: bool)
    ensures
        r == within_half(center as int, v as int, extent as int),
{
    let d: i64 = if center >= v {
        center as i64 - v as i64
    } else {
        v as i64 - center as i64
    };
    2 * d < pixel_span(extent)
}

impl Camera {
    /// Creates a camera with the given centre (sub-pixel units) and viewport
    /// (pixels).
    pub fn new(center_x: i32, center_y: i32, width: u16, height: u16) -> (camera: Self)
        ensures
            camera == (Camera { center_x, center_y, width, height }),
    {
        Camera { center_x, center_y, width, height }
    }

    /// World x of the viewport's left column: `floor(center_x - width / 2)`.
    pub open spec fn view_left(&self) -> int {
        view_start(self.center_x as int, self.width as int)
    }

    /// World y of the viewport's top row: `floor(center_y - height / 2)`.
    pub open spec fn view_top(&self) -> int {
        view_start(self.center_y as int, self.height as int)
    }

    /// World x that sprites take for screen column 0: the centre's whole
    /// pixels less half the viewport, each rounded toward zero.
    pub open spec fn origin_x(&self) -> int {
        whole_pixels(self.center_x as int) - self.width as int / 2
    }

    /// World y that sprites take for screen row 0.
    pub open spec fn origin_y(&self) -> int {
        whole_pixels(self.center_y as int) - self.height as int / 2
    }

    /// Number of pixels in the viewport.
    pub open spec fn area(&self) -> int {
        self.width as int * self.height as int
    }

    /// Whether the point lies inside the viewport: strictly less than half
    /// the width and half the height away from the centre.
    pub open spec fn sees(&self, x: int, y: int) -> bool {
        within_half(self.center_x as int, x, self.width as int) && within_half(
            self.center_y as int,
            y,
            self.height as int,
        )
    }

    /// Checks if a point (sub-pixel units) is visible within the viewport.
    pub fn is_visible(&self, x: i32, y: i32) -> (visible: bool)
        ensures
            visible == self.sees(x as int, y as int),
    {
        near(self.center_x, x, self.width) && near(self.center_y, y, self.height)
    }

    /// The indices of the points that the camera sees, in the order of the
    /// list.
    pub fn visible_among(&self, points: &Vec<(i32, i32)>) -> (seen: Vec<usize>)
        ensures
            forall|k: int|
                0 <= k < seen@.len() ==> (#[trigger] seen@[k]) < points@.len() && self.sees(
                    points@[seen@[k] as int].0 as int,
                    points@[seen@[k] as int].1 as int,
                ),
            forall|a: int, b: int|
                0 <= a < b < seen@.len() ==> (#[trigger] seen@[a]) < (#[trigger] seen@[b]),
            forall|i: usize|
                i < points@.len() && self.sees(
                    points@[i as int].0 as int,
                    points@[i as int].1 as int,
                ) ==> #[trigger] seen@.contains(i),
    {
        let mut seen: Vec<usize> = Vec::new();
        let mut i: usize = 0;
        while i < points.len()
            invariant
                i <= points@.len(),
                forall|k: int|
                    0 <= k < seen@.len() ==> (#[trigger] seen@[k]) < i && self.sees(
                        points@[seen@[k] as int].0 as int,
                        points@[seen@[k] as int].1 as int,
                    ),
                forall|a: int, b: int|
                    0 <= a < b < seen@.len() ==> (#[trigger] seen@[a]) < (#[trigger] seen@[b]),
                forall|j: usize|
                    j < i && self.sees(points@[j as int].0 as int, points@[j as int].1 as int)
                        ==> #[trigger] seen@.contains(j),
            decreases points@.len() - i,
        {
            let ghost before = seen@;
            if self.is_visible(points[i].0, points[i].1) {
                seen.push(i);
                proof {
                    assert(seen@[before.len() as int] == i);
                    assert forall|j: usize|
                        j < i + 1 && self.sees(
                            points@[j as int].0 as int,
                            points@[j as int].1 as int,
                        ) implies #[trigger] seen@.contains(j) by {
                        if j < i {
                            assert(before.contains(j));
                            let k = choose|k: int| 0 <= k < before.len() && before[k] == j;
                            assert(seen@[k] == j);
                        }
                    }
                }
            }
            i += 1;
        }
        seen
    }

    /// World x of the viewport's left column.
    pub fn left(&self) -> (v: i32)
        ensures
            v == self.view_left(),
    {
        start_of(self.center_x, self.width)
    }

    /// World y of the viewport's top row.
    pub fn top(&self) -> (v: i32)
        ensures
            v == self.view_top(),
    {
        start_of(self.center_y, self.height)
    }

    /// World x that sprites take for screen column 0.
    pub fn sprite_origin_x(&self) -> (v: i32)
        ensures
            v == self.origin_x(),
    {
        to_pixels(self.center_x) - (self.width / 2) as i32
    }

    /// World y that sprites take for screen row 0.
    pub fn sprite_origin_y(&self) -> (v: i32)
        ensures
            v == self.origin_y(),
    {
        to_pixels(self.center_y) - (self.height / 2) as i32
    }
}

} // verus!
