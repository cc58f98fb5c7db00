//! One frame cell of a sprite sheet: the tight rectangle around its visible
//! pixels, the anchor pixels of its offsets image, and equality of frames.

use vstd::prelude::*;
use crate::bitmap::{Bitmap, Pixel};
use crate::error::{AnchorColor, SheetError};
use crate::sprite_offsets::{Bounds, moved};

verus! {

/// `(x, y)` lies in the rectangle `b`.
pub open spec fn in_cell(b: Bounds, x: int, y: int) -> bool {
    b.0 <= x < b.2 && b.1 <= y < b.3
}

/// The rectangle `b` lies inside the image.
pub open spec fn cell_inside(img: &Bitmap, b: Bounds) -> bool {
    0 <= b.0 <= b.2 <= img.width && 0 <= b.1 <= b.3 <= img.height
}

/// The pixel at `(x, y)` is not fully transparent.
pub open spec fn opaque(img: &Bitmap, x: int, y: int) -> bool {
    img.px(x, y).a != 0
}

/// The cell holds a pixel that is not fully transparent.
pub open spec fn any_opaque(img: &Bitmap, cell: Bounds) -> bool {
    exists|x: int, y: int| in_cell(cell, x, y) && #[trigger] opaque(img, x, y)
}

/// `r` is the smallest rectangle that covers every visible pixel of the cell:
/// all of them lie in it and each of its four sides touches one.
pub open spec fn tight_box(img: &Bitmap, cell: Bounds, r: (int, int, int, int)) -> bool {
    &&& forall|x: int, y: int|
        in_cell(cell, x, y) && #[trigger] opaque(img, x, y) ==> r.0 <= x < r.2 && r.1 <= y < r.3
    &&& exists|y: int| in_cell(cell, r.0, y) && #[trigger] opaque(img, r.0, y)
    &&& exists|y: int| in_cell(cell, r.2 - 1, y) && #[trigger] opaque(img, r.2 - 1, y)
    &&& exists|x: int| in_cell(cell, x, r.1) && #[trigger] opaque(img, x, r.1)
    &&& exists|x: int| in_cell(cell, x, r.3 - 1) && #[trigger] opaque(img, x, r.3 - 1)
}

/// `r` is what [`get_covered_bounds`] gives for the cell: the tight rectangle
/// relative to the cell's corner, or, for a cell without a visible pixel, the
/// empty rectangle that starts at the image's far corner.
pub open spec fn is_covered_bounds(img: &Bitmap, cell: Bounds, r: Bounds) -> bool {
    if any_opaque(img, cell) {
        tight_box(img, cell, moved(r, (cell.0 as int, cell.1 as int)))
    } else {
        (r.0 as int, r.1 as int, r.2 as int, r.3 as int) == (
            img.width - cell.0,
            img.height - cell.1,
            -cell.0,
            -cell.1,
        )
    }
}

/// The tight rectangle around the visible pixels of a cell, relative to the
/// cell's corner.
pub fn get_covered_bounds(in_img: &Bitmap, max_box: Bounds) -> (r: Bounds)
    requires
        in_img.wf(),
        cell_inside(in_img, max_box),
    ensures
        is_covered_bounds(in_img, max_box, r),
        any_opaque(in_img, max_box) ==> 0 <= r.0 < r.2 <= max_box.2 - max_box.0 && 0 <= r.1 < r.3
            <= max_box.3 - max_box.1,
        !any_opaque(in_img, max_box) ==> r.0 >= r.2,
{
    let (x0, y0, x1, y1) = max_box;
    let mut min_x: i32 = in_img.width as i32;
    let mut min_y: i32 = in_img.height as i32;
    let mut max_x: i32 = -1;
    let mut max_y: i32 = -1;
    let ghost mut found = false;
    let ghost mut w_minx: int = 0;
    let ghost mut w_maxx: int = 0;
    let ghost mut w_miny: int = 0;
    let ghost mut w_maxy: int = 0;
    let mut i: i32 = x0;
    while i < x1
        invariant
            in_img.wf(),
            cell_inside(in_img, max_box),
            max_box == (x0, y0, x1, y1),
            x0 <= i <= x1,
            !found ==> min_x == in_img.width && min_y == in_img.height && max_x == -1 && max_y
                == -1,
            !found ==> forall|x: int, y: int|
                in_cell(max_box, x, y) && x < i ==> !#[trigger] opaque(in_img, x, y),
            found ==> x0 <= min_x <= max_x < i && y0 <= min_y <= max_y < y1,
            found ==> forall|x: int, y: int|
                in_cell(max_box, x, y) && x < i && #[trigger] opaque(in_img, x, y) ==> min_x <= x
                    <= max_x && min_y <= y <= max_y,
            found ==> in_cell(max_box, min_x as int, w_minx) && opaque(
                in_img,
                min_x as int,
                w_minx,
            ),
            found ==> in_cell(max_box, max_x as int, w_maxx) && opaque(
                in_img,
                max_x as int,
                w_maxx,
            ),
            found ==> in_cell(max_box, w_miny, min_y as int) && opaque(
                in_img,
                w_miny,
                min_y as int,
            ),
            found ==> in_cell(max_box, w_maxy, max_y as int) && opaque(
                in_img,
                w_maxy,
                max_y as int,
            ),
        decreases x1 - i,
    {
        let mut j: i32 = y0;
        while j < y1
            invariant
                in_img.wf(),
                cell_inside(in_img, max_box),
                max_box == (x0, y0, x1, y1),
                x0 <= i < x1,
                y0 <= j <= y1,
                !found ==> min_x == in_img.width && min_y == in_img.height && max_x == -1
                    && max_y == -1,
                !found ==> forall|x: int, y: int|
                    in_cell(max_box, x, y) && (x < i || (x == i && y < j)) ==> !#[trigger] opaque(
                        in_img,
                        x,
                        y,
                    ),
                found ==> x0 <= min_x <= max_x <= i && y0 <= min_y <= max_y < y1,
                found ==> forall|x: int, y: int|
                    in_cell(max_box, x, y) && (x < i || (x == i && y < j)) && #[trigger] opaque(
                        in_img,
                        x,
                        y,
                    ) ==> min_x <= x <= max_x && min_y <= y <= max_y,
                found ==> in_cell(max_box, min_x as int, w_minx) && opaque(
                    in_img,
                    min_x as int,
                    w_minx,
                ),
                found ==> in_cell(max_box, max_x as int, w_maxx) && opaque(
                    in_img,
                    max_x as int,
                    w_maxx,
                ),
                found ==> in_cell(max_box, w_miny, min_y as int) && opaque(
                    in_img,
                    w_miny,
                    min_y as int,
                ),
                found ==> in_cell(max_box, w_maxy, max_y as int) && opaque(
                    in_img,
                    w_maxy,
                    max_y as int,
                ),
            decreases y1 - j,
        {
            if in_img.get_pixel(i as u32, j as u32).a != 0 {
                assert(opaque(in_img, i as int, j as int));
                if i < min_x {
                    min_x = i;
                    proof {
                        w_minx = j as int;
                    }
                }
                if i > max_x {
                    max_x = i;
                    proof {
                        w_maxx = j as int;
                    }
                }
                if j < min_y {
                    min_y = j;
                    proof {
                        w_miny = i as int;
                    }
                }
                if j > max_y {
                    max_y = j;
                    proof {
                        w_maxy = i as int;
                    }
                }
                proof {
                    found = true;
                }
            }
            j += 1;
        }
        i += 1;
    }
    let r: Bounds = (min_x - x0, min_y - y0, max_x + 1 - x0, max_y + 1 - y0);
    proof {
        if found {
            assert(opaque(in_img, min_x as int, w_minx));
            assert(any_opaque(in_img, max_box));
            let abs = moved(r, (x0 as int, y0 as int));
            assert(abs == (min_x as int, min_y as int, max_x + 1, max_y + 1));
            assert(in_cell(max_box, abs.0, w_minx) && opaque(in_img, abs.0, w_minx));
            assert(in_cell(max_box, abs.2 - 1, w_maxx) && opaque(in_img, abs.2 - 1, w_maxx));
            assert(in_cell(max_box, w_miny, abs.1) && opaque(in_img, w_miny, abs.1));
            assert(in_cell(max_box, w_maxy, abs.3 - 1) && opaque(in_img, w_maxy, abs.3 - 1));
            assert(tight_box(in_img, max_box, abs));
        } else {
            assert(!any_opaque(in_img, max_box));
        }
    }
    r
}

/// Two images are equal pixel for pixel; with `flip`, the first equals the
/// second reflected from left to right.
pub open spec fn same_image(a: &Bitmap, b: &Bitmap, flip: bool) -> bool {
    &&& a.width == b.width
    &&& a.height == b.height
    &&& forall|x: int, y: int|
        a.holds(x, y) ==> #[trigger] a.px(x, y) == b.px(
            if flip {
                a.width - 1 - x
            } else {
                x
            },
            y,
        )
}

/// Whether two images are equal, directly or under a horizontal reflection.
pub fn imgs_equal(img1: &Bitmap, img2: &Bitmap, flip: bool) -> (r: bool)
    requires
        img1.wf(),
        img2.wf(),
    ensures
        r == same_image(img1, img2, flip),
{
    if img1.width != img2.width || img1.height != img2.height {
        return false;
    }
    let mut xx: u32 = 0;
    while xx < img1.width
        invariant
            img1.wf(),
            img2.wf(),
            img1.width == img2.width,
            img1.height == img2.height,
            xx <= img1.width,
            forall|x: int, y: int|
                img1.holds(x, y) && x < xx ==> #[trigger] img1.px(x, y) == img2.px(
                    if flip {
                        img1.width - 1 - x
                    } else {
                        x
                    },
                    y,
                ),
        decreases img1.width - xx,
    {
        let mut yy: u32 = 0;
        while yy < img1.height
            invariant
                img1.wf(),
                img2.wf(),
                img1.width == img2.width,
                img1.height == img2.height,
                xx < img1.width,
                yy <= img1.height,
                forall|x: int, y: int|
                    img1.holds(x, y) && (x < xx || (x == xx && y < yy)) ==> #[trigger] img1.px(x, y)
                        == img2.px(
                        if flip {
                            img1.width - 1 - x
                        } else {
                            x
                        },
                        y,
                    ),
            decreases img1.height - yy,
        {
            let x2: u32 = if flip { img1.width - 1 - xx } else { xx };
            if img1.get_pixel(xx, yy) != img2.get_pixel(x2, yy) {
                assert(img1.holds(xx as int, yy as int));
                assert(img1.px(xx as int, yy as int) != img2.px(
                    if flip {
                        img1.width - 1 - xx
                    } else {
                        xx as int
                    },
                    yy as int,
                ));
                return false;
            }
            yy += 1;
        }
        xx += 1;
    }
    true
}

/// A pixel is an anchor pixel of the given colour class. Anchor pixels are
/// fully opaque; black asks for all three channels at 0, white for all three
/// at 255, and red, green and blue for their own channel at 255.
pub open spec fn hit(c: AnchorColor, p: Pixel) -> bool {
    p.a == 255 && match c {
        AnchorColor::Black => p.r == 0 && p.g == 0 && p.b == 0,
        AnchorColor::Red => p.r == 255,
        AnchorColor::Green => p.g == 255,
        AnchorColor::Blue => p.b == 255,
        AnchorColor::White => p.r == 255 && p.g == 255 && p.b == 255,
    }
}

/// `(x, y)` is an anchor pixel of class `c` inside the cell.
pub open spec fn hit_at(img: &Bitmap, cell: Bounds, c: AnchorColor, x: int, y: int) -> bool {
    in_cell(cell, x, y) && hit(c, img.px(x, y))
}

/// The cell holds two different anchor pixels of class `c`.
pub open spec fn has_two(img: &Bitmap, cell: Bounds, c: AnchorColor) -> bool {
    exists|x1: int, y1: int, x2: int, y2: int|
        #[trigger] hit_at(img, cell, c, x1, y1) && #[trigger] hit_at(img, cell, c, x2, y2) && (x1
            != x2 || y1 != y2)
}

/// `r` is the cell's only anchor pixel of class `c`, relative to the cell's
/// corner, or `None` where the cell has none.
pub open spec fn only_hit(img: &Bitmap, cell: Bounds, c: AnchorColor, r: Option<(i32, i32)>) -> bool {
    match r {
        None => forall|x: int, y: int| !#[trigger] hit_at(img, cell, c, x, y),
        Some(pos) => hit_at(img, cell, c, cell.0 + pos.0, cell.1 + pos.1) && forall|x: int, y: int|
            #[trigger] hit_at(img, cell, c, x, y) ==> x == cell.0 + pos.0 && y == cell.1 + pos.1,
    }
}

fn is_hit(c: AnchorColor, p: Pixel) -> (r: bool)
    ensures
        r == hit(c, p),
{
    p.a == 255 && match c {
        AnchorColor::Black => p.r == 0 && p.g == 0 && p.b == 0,
        AnchorColor::Red => p.r == 255,
        AnchorColor::Green => p.g == 255,
        AnchorColor::Blue => p.b == 255,
        AnchorColor::White => p.r == 255 && p.g == 255 && p.b == 255,
    }
}

/// The pixel `(x1, y1)` is read before `(x2, y2)`: the pixels of a cell are
/// read column by column, each column from the top.
pub open spec fn read_before(x1: int, y1: int, x2: int, y2: int) -> bool {
    x1 < x2 || (x1 == x2 && y1 < y2)
}

/// `(x, y)` is the second anchor pixel of class `c` that is read in the
/// cell: exactly one anchor pixel of the class is read before it.
pub open spec fn is_second(img: &Bitmap, cell: Bounds, c: AnchorColor, x: int, y: int) -> bool {
    hit_at(img, cell, c, x, y) && exists|x1: int, y1: int|
        #[trigger] hit_at(img, cell, c, x1, y1) && read_before(x1, y1, x, y) && forall|
            x2: int,
            y2: int,
        |
            #[trigger] hit_at(img, cell, c, x2, y2) && read_before(x2, y2, x, y) ==> x2 == x1 && y2
                == y1
}

/// A class has at most one second anchor pixel.
pub proof fn lemma_second_unique(
    img: &Bitmap,
    cell: Bounds,
    c: AnchorColor,
    xa: int,
    ya: int,
    xb: int,
    yb: int,
)
    requires
        is_second(img, cell, c, xa, ya),
        is_second(img, cell, c, xb, yb),
    ensures
        xa == xb && ya == yb,
{
    let (a1, a2) = choose|x1: int, y1: int|
        #[trigger] hit_at(img, cell, c, x1, y1) && read_before(x1, y1, xa, ya) && forall|
            x2: int,
            y2: int,
        |
            #[trigger] hit_at(img, cell, c, x2, y2) && read_before(x2, y2, xa, ya) ==> x2 == x1
                && y2 == y1;
    let (b1, b2) = choose|x1: int, y1: int|
        #[trigger] hit_at(img, cell, c, x1, y1) && read_before(x1, y1, xb, yb) && forall|
            x2: int,
            y2: int,
        |
            #[trigger] hit_at(img, cell, c, x2, y2) && read_before(x2, y2, xb, yb) ==> x2 == x1
                && y2 == y1;
    if read_before(xa, ya, xb, yb) {
        assert(hit_at(img, cell, c, xa, ya));
        assert(xa == b1 && ya == b2);
        assert(read_before(a1, a2, xb, yb));
        assert(hit_at(img, cell, c, a1, a2));
        assert(a1 == b1 && a2 == b2);
    } else if read_before(xb, yb, xa, ya) {
        assert(hit_at(img, cell, c, xb, yb));
        assert(xb == a1 && yb == a2);
        assert(read_before(b1, b2, xa, ya));
        assert(hit_at(img, cell, c, b1, b2));
        assert(b1 == a1 && b2 == a2);
    }
}

/// The second anchor pixel of class `c` that is read in the cell, if there
/// is one.
pub open spec fn second_hit(img: &Bitmap, cell: Bounds, c: AnchorColor) -> Option<(int, int)> {
    if exists|x: int, y: int| #[trigger] is_second(img, cell, c, x, y) {
        let p = choose|p: (int, int)| #[trigger] is_second(img, cell, c, p.0, p.1);
        Some(p)
    } else {
        None
    }
}

/// Where `(x, y)` is the second anchor pixel of a class, `second_hit` names
/// it.
pub proof fn lemma_second_hit(img: &Bitmap, cell: Bounds, c: AnchorColor, x: int, y: int)
    requires
        is_second(img, cell, c, x, y),
    ensures
        second_hit(img, cell, c) == Some((x, y)),
{
    assert(is_second(img, cell, c, (x, y).0, (x, y).1));
    let p = choose|p: (int, int)| #[trigger] is_second(img, cell, c, p.0, p.1);
    lemma_second_unique(img, cell, c, x, y, p.0, p.1);
}

/// A class without two anchor pixels has no second one.
pub proof fn lemma_no_second(img: &Bitmap, cell: Bounds, c: AnchorColor)
    requires
        !has_two(img, cell, c),
    ensures
        second_hit(img, cell, c) is None,
{
    if exists|x: int, y: int| #[trigger] is_second(img, cell, c, x, y) {
        let (x, y) = choose|x: int, y: int| #[trigger] is_second(img, cell, c, x, y);
        let (x1, y1) = choose|x1: int, y1: int|
            #[trigger] hit_at(img, cell, c, x1, y1) && read_before(x1, y1, x, y) && forall|
                x2: int,
                y2: int,
            |
                #[trigger] hit_at(img, cell, c, x2, y2) && read_before(x2, y2, x, y) ==> x2 == x1
                    && y2 == y1;
        assert(hit_at(img, cell, c, x, y) && hit_at(img, cell, c, x1, y1));
        assert(has_two(img, cell, c));
    }
}

/// Looks for the anchor pixel of one colour class in a cell, column by
/// column: the only one, or the place of the second one.
fn scan_anchor(img: &Bitmap, cell: Bounds, c: AnchorColor) -> (r: Result<Option<(i32, i32)>, (i32, i32)>)
    requires
        img.wf(),
        cell_inside(img, cell),
    ensures
        match r {
            Ok(h) => only_hit(img, cell, c, h) && !has_two(img, cell, c) && (h matches Some(pos)
                ==> 0 <= pos.0 < cell.2 - cell.0 && 0 <= pos.1 < cell.3 - cell.1),
            Err(p) => has_two(img, cell, c) && is_second(img, cell, c, p.0 as int, p.1 as int),
        },
{
    let (x0, y0, x1, y1) = cell;
    let mut found: Option<(i32, i32)> = None;
    let mut i: i32 = x0;
    while i < x1
        invariant
            img.wf(),
            cell_inside(img, cell),
            cell == (x0, y0, x1, y1),
            x0 <= i <= x1,
            found is None ==> forall|x: int, y: int| x < i ==> !#[trigger] hit_at(img, cell, c, x, y),
            found matches Some(pos) ==> hit_at(img, cell, c, x0 + pos.0, y0 + pos.1) && x0 + pos.0
                < i && forall|x: int, y: int|
                x < i && #[trigger] hit_at(img, cell, c, x, y) ==> x == x0 + pos.0 && y == y0
                    + pos.1,
        decreases x1 - i,
    {
        let mut j: i32 = y0;
        while j < y1
            invariant
                img.wf(),
                cell_inside(img, cell),
                cell == (x0, y0, x1, y1),
                x0 <= i < x1,
                y0 <= j <= y1,
                found is None ==> forall|x: int, y: int|
                    (x < i || (x == i && y < j)) ==> !#[trigger] hit_at(img, cell, c, x, y),
                found matches Some(pos) ==> hit_at(img, cell, c, x0 + pos.0, y0 + pos.1) && (x0
                    + pos.0 < i || (x0 + pos.0 == i && y0 + pos.1 < j)) && forall|x: int, y: int|
                    (x < i || (x == i && y < j)) && #[trigger] hit_at(img, cell, c, x, y) ==> x
                        == x0 + pos.0 && y == y0 + pos.1,
            decreases y1 - j,
        {
            if is_hit(c, img.get_pixel(i as u32, j as u32)) {
                assert(hit_at(img, cell, c, i as int, j as int));
                match found {
                    None => {
                        found = Some((i - x0, j - y0));
                    },
                    Some(pos) => {
                        assert(hit_at(img, cell, c, x0 + pos.0, y0 + pos.1));
                        assert(has_two(img, cell, c));
                        assert(read_before(x0 + pos.0, y0 + pos.1, i as int, j as int));
                        assert(is_second(img, cell, c, i as int, j as int));
                        return Err((i, j));
                    },
                }
            }
            j += 1;
        }
        i += 1;
    }
    proof {
        assert(only_hit(img, cell, c, found)) by {
            match found {
                None => {
                    assert forall|x: int, y: int| !#[trigger] hit_at(img, cell, c, x, y) by {
                        if hit_at(img, cell, c, x, y) {
                            assert(x < i);
                        }
                    }
                },
                Some(pos) => {
                    assert forall|x: int, y: int| #[trigger]
                        hit_at(img, cell, c, x, y) implies x == x0 + pos.0 && y == y0 + pos.1 by {
                        assert(x < i);
                    }
                },
            }
        }
        assert(!has_two(img, cell, c)) by {
            if has_two(img, cell, c) {
                let (a1, b1, a2, b2) = choose|a1: int, b1: int, a2: int, b2: int|
                    #[trigger] hit_at(img, cell, c, a1, b1) && #[trigger] hit_at(
                        img,
                        cell,
                        c,
                        a2,
                        b2,
                    ) && (a1 != a2 || b1 != b2);
                assert(a1 < i && a2 < i);
            }
        }
    }
    Ok(found)
}

/// Looks for the anchor pixel of one colour class in a cell.
pub fn find_anchor(img: &Bitmap, cell: Bounds, c: AnchorColor) -> (r: Result<
    Option<(i32, i32)>,
    SheetError,
>)
    requires
        img.wf(),
        cell_inside(img, cell),
    ensures
        match r {
            Ok(h) => only_hit(img, cell, c, h) && !has_two(img, cell, c) && (h matches Some(pos)
                ==> 0 <= pos.0 < cell.2 - cell.0 && 0 <= pos.1 < cell.3 - cell.1),
            Err(e) => e == SheetError::MultiplePixels(c) && has_two(img, cell, c),
        },
{
    match scan_anchor(img, cell, c) {
        Ok(h) => Ok(h),
        Err(_) => Err(SheetError::MultiplePixels(c)),
    }
}

/// What was found of each anchor colour in a cell.
#[derive(Clone, Copy, Debug)]
pub struct AnchorHits {
    pub black: Option<(i32, i32)>,
    pub red: Option<(i32, i32)>,
    pub green: Option<(i32, i32)>,
    pub blue: Option<(i32, i32)>,
    pub white: Option<(i32, i32)>,
}

/// The earlier of two faults: `best` is the fault found so far, a class and
/// its second anchor pixel; a class that is looked for and has a second
/// anchor pixel takes its place if that pixel is read before the other.
pub open spec fn earlier_fault(
    best: Option<(AnchorColor, (int, int))>,
    wanted: bool,
    c: AnchorColor,
    second: Option<(int, int)>,
) -> Option<(AnchorColor, (int, int))> {
    match second {
        Some(p) if wanted => match best {
            Some(b) if !read_before(p.0, p.1, b.1.0, b.1.1) => best,
            _ => Some((c, p)),
        },
        _ => best,
    }
}

/// The class and the place of the first fault of a cell: of the classes
/// that are looked for and have two anchor pixels, the one whose second
/// pixel is read first; where one pixel is the second of several classes,
/// the first of them in the order black, red, green, blue, white.
pub open spec fn first_fault(
    img: &Bitmap,
    cell: Bounds,
    black: bool,
    r: bool,
    g: bool,
    b: bool,
    white: bool,
) -> Option<(AnchorColor, (int, int))> {
    let f0 = earlier_fault(None, black, AnchorColor::Black, second_hit(img, cell, AnchorColor::Black));
    let f1 = earlier_fault(f0, r, AnchorColor::Red, second_hit(img, cell, AnchorColor::Red));
    let f2 = earlier_fault(f1, g, AnchorColor::Green, second_hit(img, cell, AnchorColor::Green));
    let f3 = earlier_fault(f2, b, AnchorColor::Blue, second_hit(img, cell, AnchorColor::Blue));
    earlier_fault(f3, white, AnchorColor::White, second_hit(img, cell, AnchorColor::White))
}

/// The colour class at which the reading of a cell stops: the pixels are
/// read column by column, and the reading stops at the first pixel that is
/// the second anchor pixel of a class that is looked for.
pub open spec fn first_double(
    img: &Bitmap,
    cell: Bounds,
    black: bool,
    r: bool,
    g: bool,
    b: bool,
    white: bool,
) -> Option<AnchorColor> {
    match first_fault(img, cell, black, r, g, b, white) {
        Some(f) => Some(f.0),
        None => None,
    }
}

/// `h` is what a class that is looked for (`wanted`) or not has to show.
pub open spec fn class_result(
    img: &Bitmap,
    cell: Bounds,
    c: AnchorColor,
    wanted: bool,
    h: Option<(i32, i32)>,
) -> bool {
    if wanted {
        only_hit(img, cell, c, h) && (h matches Some(pos) ==> 0 <= pos.0 < cell.2 - cell.0 && 0
            <= pos.1 < cell.3 - cell.1)
    } else {
        h is None
    }
}

/// `h` holds, for every class that is looked for, the cell's only anchor
/// pixel of that class.
pub open spec fn hits_of(
    img: &Bitmap,
    cell: Bounds,
    black: bool,
    r: bool,
    g: bool,
    b: bool,
    white: bool,
    h: AnchorHits,
) -> bool {
    &&& class_result(img, cell, AnchorColor::Black, black, h.black)
    &&& class_result(img, cell, AnchorColor::Red, r, h.red)
    &&& class_result(img, cell, AnchorColor::Green, g, h.green)
    &&& class_result(img, cell, AnchorColor::Blue, b, h.blue)
    &&& class_result(img, cell, AnchorColor::White, white, h.white)
}

/// The fault as plain values.
pub open spec fn fault_view(f: Option<(AnchorColor, (i32, i32))>) -> Option<(AnchorColor, (int, int))> {
    match f {
        Some(x) => Some((x.0, (x.1.0 as int, x.1.1 as int))),
        None => None,
    }
}

fn find_wanted(
    img: &Bitmap,
    cell: Bounds,
    c: AnchorColor,
    wanted: bool,
    best: Option<(AnchorColor, (i32, i32))>,
) -> (r: (Option<(i32, i32)>, Option<(AnchorColor, (i32, i32))>))
    requires
        img.wf(),
        cell_inside(img, cell),
    ensures
        fault_view(r.1) == earlier_fault(fault_view(best), wanted, c, second_hit(img, cell, c)),
        wanted && second_hit(img, cell, c) is Some ==> r.1 is Some,
        !(wanted && second_hit(img, cell, c) is Some) ==> class_result(img, cell, c, wanted, r.0),
{
    if !wanted {
        return (None, best);
    }
    match scan_anchor(img, cell, c) {
        Ok(h) => {
            proof {
                lemma_no_second(img, cell, c);
            }
            (h, best)
        },
        Err(p) => {
            proof {
                lemma_second_hit(img, cell, c, p.0 as int, p.1 as int);
            }
            let better = match best {
                Some(b) => p.0 < b.1.0 || (p.0 == b.1.0 && p.1 < b.1.1),
                None => true,
            };
            if better {
                (None, Some((c, p)))
            } else {
                (None, best)
            }
        },
    }
}

/// Reads the anchor pixels of a cell of an offsets image, for the colour
/// classes asked for. Two pixels of one class are an error. The pixels are
/// read column by column, and for each pixel the classes are tried in the
/// order black, red, green, blue, white: the class named is the one at which
/// a second pixel is met first.
pub fn get_offset_from_rgb(
    img: &Bitmap,
    bounds: Bounds,
    black: bool,
    r: bool,
    g: bool,
    b: bool,
    white: bool,
) -> (res: Result<AnchorHits, SheetError>)
    requires
        img.wf(),
        cell_inside(img, bounds),
    ensures
        match res {
            Ok(h) => first_double(img, bounds, black, r, g, b, white) is None && hits_of(
                img,
                bounds,
                black,
                r,
                g,
                b,
                white,
                h,
            ),
            Err(e) => first_double(img, bounds, black, r, g, b, white) matches Some(c) && e
                == SheetError::MultiplePixels(c),
        },
{
    let (h_black, f0) = find_wanted(img, bounds, AnchorColor::Black, black, None);
    let (h_red, f1) = find_wanted(img, bounds, AnchorColor::Red, r, f0);
    let (h_green, f2) = find_wanted(img, bounds, AnchorColor::Green, g, f1);
    let (h_blue, f3) = find_wanted(img, bounds, AnchorColor::Blue, b, f2);
    let (h_white, f4) = find_wanted(img, bounds, AnchorColor::White, white, f3);
    match f4 {
        Some(f) => Err(SheetError::MultiplePixels(f.0)),
        None => Ok(
            AnchorHits { black: h_black, red: h_red, green: h_green, blue: h_blue, white: h_white },
        ),
    }
}

} // verus!
