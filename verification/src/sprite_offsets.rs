//! Anchor points of a sprite frame and the rectangles around them.

use vstd::prelude::*;

verus! {

/// The largest magnitude of a coordinate for which the rectangle functions
/// are free of overflow.
pub const COORD_LIMIT: i32 = 0x1000_0000;

/// The four anchor points of a frame: head, left hand, right hand, centre.
#[derive(Clone, Copy, Debug, PartialEq, Eq, Structural)]
pub struct SpriteOffsets {
    pub head_x: i32,
    pub head_y: i32,
    pub lhand_x: i32,
    pub lhand_y: i32,
    pub rhand_x: i32,
    pub rhand_y: i32,
    pub center_x: i32,
    pub center_y: i32,
}

/// A rectangle as `(x, y, x_max, y_max)`, the maxima exclusive.
pub type Bounds = (i32, i32, i32, i32);

/// `v` is at most [`COORD_LIMIT`] in magnitude.
pub open spec fn small(v: int) -> bool {
    -COORD_LIMIT <= v <= COORD_LIMIT
}

/// All four numbers of a rectangle are at most `2 * COORD_LIMIT` in magnitude.
pub open spec fn small_bounds(b: Bounds) -> bool {
    &&& -2 * COORD_LIMIT <= b.0 <= 2 * COORD_LIMIT
    &&& -2 * COORD_LIMIT <= b.1 <= 2 * COORD_LIMIT
    &&& -2 * COORD_LIMIT <= b.2 <= 2 * COORD_LIMIT
    &&& -2 * COORD_LIMIT <= b.3 <= 2 * COORD_LIMIT
}

pub open spec fn min_int(a: int, b: int) -> int {
    if a <= b {
        a
    } else {
        b
    }
}

pub open spec fn max_int(a: int, b: int) -> int {
    if a >= b {
        a
    } else {
        b
    }
}

fn min32(a: i32, b: i32) -> (r: i32)
    ensures
        r == min_int(a as int, b as int),
{
    if a <= b {
        a
    } else {
        b
    }
}

fn max32(a: i32, b: i32) -> (r: i32)
    ensures
        r == max_int(a as int, b as int),
{
    if a >= b {
        a
    } else {
        b
    }
}

/// The rectangle that covers both `t` and `b`.
pub open spec fn combined(t: Bounds, b: Bounds) -> Bounds {
    (
        min_int(t.0 as int, b.0 as int) as i32,
        min_int(t.1 as int, b.1 as int) as i32,
        max_int(t.2 as int, b.2 as int) as i32,
        max_int(t.3 as int, b.3 as int) as i32,
    )
}

/// The rectangle `b` moved by `c`.
pub open spec fn moved(b: Bounds, c: (int, int)) -> (int, int, int, int) {
    (b.0 + c.0, b.1 + c.1, b.2 + c.0, b.3 + c.1)
}

impl Default for SpriteOffsets {
    fn default() -> (r: SpriteOffsets)
        ensures
            r == SpriteOffsets::origin(),
    {
        SpriteOffsets {
            head_x: 0,
            head_y: 0,
            lhand_x: 0,
            lhand_y: 0,
            rhand_x: 0,
            rhand_y: 0,
            center_x: 0,
            center_y: 0,
        }
    }
}

impl SpriteOffsets {
    /// All anchors at `(0, 0)`.
    pub open spec fn origin() -> SpriteOffsets {
        SpriteOffsets {
            head_x: 0,
            head_y: 0,
            lhand_x: 0,
            lhand_y: 0,
            rhand_x: 0,
            rhand_y: 0,
            center_x: 0,
            center_y: 0,
        }
    }

    /// Every coordinate is at most [`COORD_LIMIT`] in magnitude.
    pub open spec fn small(&self) -> bool {
        &&& small(self.head_x as int)
        &&& small(self.head_y as int)
        &&& small(self.lhand_x as int)
        &&& small(self.lhand_y as int)
        &&& small(self.rhand_x as int)
        &&& small(self.rhand_y as int)
        &&& small(self.center_x as int)
        &&& small(self.center_y as int)
    }

    /// The anchors moved by `(x, y)`.
    pub open spec fn shifted(&self, x: int, y: int) -> SpriteOffsets {
        SpriteOffsets {
            head_x: (self.head_x + x) as i32,
            head_y: (self.head_y + y) as i32,
            lhand_x: (self.lhand_x + x) as i32,
            lhand_y: (self.lhand_y + y) as i32,
            rhand_x: (self.rhand_x + x) as i32,
            rhand_y: (self.rhand_y + y) as i32,
            center_x: (self.center_x + x) as i32,
            center_y: (self.center_y + y) as i32,
        }
    }

    /// The anchors reflected in a frame that is `width` wide: `x` becomes
    /// `width - 1 - x`.
    pub open spec fn mirrored(&self, width: int) -> (int, int, int, int, int, int, int, int) {
        (
            width - self.head_x - 1,
            self.head_y as int,
            width - self.lhand_x - 1,
            self.lhand_y as int,
            width - self.rhand_x - 1,
            self.rhand_y as int,
            width - self.center_x - 1,
            self.center_y as int,
        )
    }

    /// The eight coordinates as mathematical integers.
    pub open spec fn coords(&self) -> (int, int, int, int, int, int, int, int) {
        (
            self.head_x as int,
            self.head_y as int,
            self.lhand_x as int,
            self.lhand_y as int,
            self.rhand_x as int,
            self.rhand_y as int,
            self.center_x as int,
            self.center_y as int,
        )
    }

    /// The smallest rectangle around the four anchors, each one pixel large.
    /// It never ends left of or above `-10000` nor starts right of or below
    /// `10000`.
    pub open spec fn bounds(&self) -> Bounds {
        combined(
            combined(
                combined(
                    combined((10000i32, 10000i32, -10000i32, -10000i32), self.bounds_head()),
                    self.bounds_lhand(),
                ),
                self.bounds_rhand(),
            ),
            self.bounds_center(),
        )
    }

    pub open spec fn bounds_head(&self) -> Bounds {
        (self.head_x, self.head_y, (self.head_x + 1) as i32, (self.head_y + 1) as i32)
    }

    pub open spec fn bounds_lhand(&self) -> Bounds {
        (self.lhand_x, self.lhand_y, (self.lhand_x + 1) as i32, (self.lhand_y + 1) as i32)
    }

    pub open spec fn bounds_rhand(&self) -> Bounds {
        (self.rhand_x, self.rhand_y, (self.rhand_x + 1) as i32, (self.rhand_y + 1) as i32)
    }

    pub open spec fn bounds_center(&self) -> Bounds {
        (self.center_x, self.center_y, (self.center_x + 1) as i32, (self.center_y + 1) as i32)
    }

    /// The rectangle around the anchors, widened on the nearer side of
    /// `(cx, cy)` until that point is its midpoint.
    pub open spec fn centered_bounds(&self, cx: int, cy: int) -> (int, int, int, int) {
        let b = self.bounds();
        let min_x = min_int(b.0 - cx, cx - b.2);
        let min_y = min_int(b.1 - cy, cy - b.3);
        let max_x = max_int(cx - b.0, b.2 - cx);
        let max_y = max_int(cy - b.1, b.3 - cy);
        (min_x + cx, min_y + cy, max_x + cx, max_y + cy)
    }

    /// Moves every anchor by `loc`.
    pub fn add_loc(&mut self, loc: (i32, i32))
        requires
            old(self).small(),
            small(loc.0 as int),
            small(loc.1 as int),
        ensures
            *final(self) == old(self).shifted(loc.0 as int, loc.1 as int),
    {
        let (x, y) = loc;
        self.head_x += x;
        self.head_y += y;
        self.lhand_x += x;
        self.lhand_y += y;
        self.rhand_x += x;
        self.rhand_y += y;
        self.center_x += x;
        self.center_y += y;
    }

    /// The rectangle around all four anchors.
    pub fn get_bounds(&self) -> (r: Bounds)
        requires
            self.small(),
        ensures
            r == self.bounds(),
            small_bounds(r),
    {
        let mut max_bounds: Bounds = (10000, 10000, -10000, -10000);
        max_bounds = Self::combine_extents(max_bounds, self.get_bounds_head());
        max_bounds = Self::combine_extents(max_bounds, self.get_bounds_lhand());
        max_bounds = Self::combine_extents(max_bounds, self.get_bounds_rhand());
        max_bounds = Self::combine_extents(max_bounds, self.get_bounds_center());
        max_bounds
    }

    /// The one-pixel rectangle of the head anchor.
    pub fn get_bounds_head(&self) -> (r: Bounds)
        requires
            self.small(),
        ensures
            r == self.bounds_head(),
    {
        (self.head_x, self.head_y, self.head_x + 1, self.head_y + 1)
    }

    /// The one-pixel rectangle of the left hand anchor.
    pub fn get_bounds_lhand(&self) -> (r: Bounds)
        requires
            self.small(),
        ensures
            r == self.bounds_lhand(),
    {
        (self.lhand_x, self.lhand_y, self.lhand_x + 1, self.lhand_y + 1)
    }

    /// The one-pixel rectangle of the right hand anchor.
    pub fn get_bounds_rhand(&self) -> (r: Bounds)
        requires
            self.small(),
        ensures
            r == self.bounds_rhand(),
    {
        (self.rhand_x, self.rhand_y, self.rhand_x + 1, self.rhand_y + 1)
    }

    /// The one-pixel rectangle of the centre anchor.
    pub fn get_bounds_center(&self) -> (r: Bounds)
        requires
            self.small(),
        ensures
            r == self.bounds_center(),
    {
        (self.center_x, self.center_y, self.center_x + 1, self.center_y + 1)
    }

    /// The rectangle around the anchors with `center` as its midpoint.
    pub fn get_centered_bounds(&self, center: (i32, i32)) -> (r: Bounds)
        requires
            self.small(),
            small(center.0 as int),
            small(center.1 as int),
        ensures
            (r.0 as int, r.1 as int, r.2 as int, r.3 as int) == self.centered_bounds(
                center.0 as int,
                center.1 as int,
            ),
            r.2 - center.0 == center.0 - r.0,
            r.3 - center.1 == center.1 - r.1,
            r.0 <= r.2,
            r.1 <= r.3,
    {
        let (cx, cy) = center;
        let (x, y, xm, ym) = self.get_bounds();
        let min_x = min32(x - cx, cx - xm);
        let min_y = min32(y - cy, cy - ym);
        let max_x = max32(cx - x, xm - cx);
        let max_y = max32(cy - y, ym - cy);
        add_to_bounds((min_x, min_y, max_x, max_y), (cx, cy))
    }

    /// The rectangle that covers both arguments.
    pub fn combine_extents(t: Bounds, b: Bounds) -> (r: Bounds)
        ensures
            r == combined(t, b),
    {
        (min32(t.0, b.0), min32(t.1, b.1), max32(t.2, b.2), max32(t.3, b.3))
    }
}

/// Moves a rectangle by `c`.
pub fn add_to_bounds(b: Bounds, c: (i32, i32)) -> (r: Bounds)
    requires
        i32::MIN <= b.0 + c.0 <= i32::MAX,
        i32::MIN <= b.1 + c.1 <= i32::MAX,
        i32::MIN <= b.2 + c.0 <= i32::MAX,
        i32::MIN <= b.3 + c.1 <= i32::MAX,
    ensures
        (r.0 as int, r.1 as int, r.2 as int, r.3 as int) == moved(b, (c.0 as int, c.1 as int)),
{
    (b.0 + c.0, b.1 + c.1, b.2 + c.0, b.3 + c.1)
}

/// Moves a rectangle back by `c`.
pub fn sub_from_bounds(b: Bounds, c: (i32, i32)) -> (r: Bounds)
    requires
        i32::MIN <= b.0 - c.0 <= i32::MAX,
        i32::MIN <= b.1 - c.1 <= i32::MAX,
        i32::MIN <= b.2 - c.0 <= i32::MAX,
        i32::MIN <= b.3 - c.1 <= i32::MAX,
    ensures
        (r.0 as int, r.1 as int, r.2 as int, r.3 as int) == moved(b, (-(c.0 as int), -(c.1 as int))),
{
    (b.0 - c.0, b.1 - c.1, b.2 - c.0, b.3 - c.1)
}

/// The least multiple of `mult` that is not below `num`.
pub open spec fn rounded_up(num: int, mult: int) -> int {
    if num % mult == 0 {
        num
    } else {
        num - num % mult + mult
    }
}

/// Rounds `num` up to a multiple of `mult`.
pub fn round_up_to_mult(num: u32, mult: u32) -> (r: u32)
    requires
        mult > 0,
        rounded_up(num as int, mult as int) <= u32::MAX,
    ensures
        r == rounded_up(num as int, mult as int),
        r % mult == 0,
        num <= r < num + mult,
{
    let rem = num % mult;
    if rem == 0 {
        num
    } else {
        proof {
            assert(num as int % mult as int <= num) by (nonlinear_arith)
                requires
                    mult > 0,
                    num >= 0,
            ;
        }
        let r = num - rem + mult;
        proof {
            let q = (num / mult) as int;
            assert(num == q * mult + rem) by (nonlinear_arith)
                requires
                    q == num as int / mult as int,
                    rem == num as int % mult as int,
                    mult > 0,
            ;
            assert((q + 1) * mult == q * mult + mult) by (nonlinear_arith);
            assert(((q + 1) * mult) % (mult as int) == 0) by (nonlinear_arith)
                requires
                    mult > 0,
            ;
        }
        r
    }
}

/// The anchors of two frames agree, the second set taken as it is or, with
/// `flip`, reflected in a frame `img_width` wide.
pub open spec fn same_offsets(a: &SpriteOffsets, b: &SpriteOffsets, img_width: int, flip: bool) -> bool {
    if flip {
        a.coords() == b.mirrored(img_width)
    } else {
        a.coords() == b.coords()
    }
}

/// Whether two sets of anchors are equal, directly or under a horizontal
/// reflection of the second one.
pub fn offsets_equal(offset1: &SpriteOffsets, offset2: &SpriteOffsets, img_width: i32, flip: bool) -> (r:
    bool)
    ensures
        r == same_offsets(offset1, offset2, img_width as int, flip),
{
    let w = img_width as i64;
    let (center, head, lhand, rhand) = if flip {
        (
            (w - offset2.center_x as i64 - 1, offset2.center_y as i64),
            (w - offset2.head_x as i64 - 1, offset2.head_y as i64),
            (w - offset2.lhand_x as i64 - 1, offset2.lhand_y as i64),
            (w - offset2.rhand_x as i64 - 1, offset2.rhand_y as i64),
        )
    } else {
        (
            (offset2.center_x as i64, offset2.center_y as i64),
            (offset2.head_x as i64, offset2.head_y as i64),
            (offset2.lhand_x as i64, offset2.lhand_y as i64),
            (offset2.rhand_x as i64, offset2.rhand_y as i64),
        )
    };
    if offset1.center_x as i64 != center.0 || offset1.center_y as i64 != center.1 {
        return false;
    }
    if offset1.head_x as i64 != head.0 || offset1.head_y as i64 != head.1 {
        return false;
    }
    if offset1.lhand_x as i64 != lhand.0 || offset1.lhand_y as i64 != lhand.1 {
        return false;
    }
    if offset1.rhand_x as i64 != rhand.0 || offset1.rhand_y as i64 != rhand.1 {
        return false;
    }
    true
}

} // verus!
