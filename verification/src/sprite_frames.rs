//! The frames of a form's sprite sheets: cut out cell by cell, tightened to
//! their visible pixels, with their anchors, and kept once each.

use vstd::prelude::*;
use crate::bitmap::{Bitmap, MAX_SIDE};
use crate::error::{AnchorColor, SheetError};
use crate::sprite_cells::{
    AnchorHits,
    any_opaque,
    cell_inside,
    class_result,
    first_double,
    get_covered_bounds,
    get_offset_from_rgb,
    hit_at,
    hits_of,
    imgs_equal,
    in_cell,
    is_covered_bounds,
    opaque,
    same_image,
    tight_box,
};
use crate::sprite_offsets::{
    Bounds,
    SpriteOffsets,
    add_to_bounds,
    moved,
    offsets_equal,
    same_offsets,
};

verus! {

/// One frame: its pixels and its anchors, relative to its top left corner.
#[derive(Clone, Debug)]
pub struct Frame {
    pub image: Bitmap,
    pub offsets: SpriteOffsets,
}

/// The two images of one animation, with the size of a frame cell. `images`
/// holds the animation sheet and the offsets sheet; it is `None` where one of
/// them is missing.
#[derive(Clone, Debug)]
pub struct AnimSheet {
    pub frame_width: i32,
    pub frame_height: i32,
    pub images: Option<(Bitmap, Bitmap)>,
}

impl AnimSheet {
    /// The cell size is positive and not above the largest image side; the
    /// images are well formed.
    pub open spec fn wf(&self) -> bool {
        &&& 1 <= self.frame_width <= MAX_SIDE
        &&& 1 <= self.frame_height <= MAX_SIDE
        &&& self.images matches Some(im) ==> im.0.wf() && im.1.wf()
    }

    /// The height of the animation image; 0 where the images are missing.
    pub open spec fn anim_height(&self) -> int {
        match self.images {
            Some(im) => im.0.height as int,
            None => 0,
        }
    }
}

/// The row of the sheet from which the frames of direction `row` are read:
/// the directions are taken clockwise.
pub open spec fn clockwise_row(row: int) -> int {
    (8 - row % 8) % 8
}

/// The frame cell of direction `row` and column `col`.
pub open spec fn sheet_cell(s: &AnimSheet, row: int, col: int) -> Bounds {
    (
        (col * s.frame_width) as i32,
        (clockwise_row(row) * s.frame_height) as i32,
        (col * s.frame_width + s.frame_width) as i32,
        (clockwise_row(row) * s.frame_height + s.frame_height) as i32,
    )
}

/// `(row, col)` is a cell of the grid: the sheet is there, and the cell
/// starts inside the animation image when the rows are counted from the top.
pub open spec fn is_cell(s: &AnimSheet, row: int, col: int) -> bool {
    s.images matches Some(im) && 0 <= row && row * s.frame_height < im.0.height && 0 <= col && col
        * s.frame_width < im.0.width
}

/// The anchors that the anchor pixels of a cell give: centre from green, head
/// from black or else the centre, left hand from red, right hand from blue;
/// `(0, 0)` for what is missing.
pub open spec fn anchors_of(h: AnchorHits) -> SpriteOffsets {
    let center = match h.green {
        Some(p) => p,
        None => (0i32, 0i32),
    };
    let head = match h.black {
        Some(p) => p,
        None => center,
    };
    let lhand = match h.red {
        Some(p) => p,
        None => (0i32, 0i32),
    };
    let rhand = match h.blue {
        Some(p) => p,
        None => (0i32, 0i32),
    };
    SpriteOffsets {
        head_x: head.0,
        head_y: head.1,
        lhand_x: lhand.0,
        lhand_y: lhand.1,
        rhand_x: rhand.0,
        rhand_y: rhand.1,
        center_x: center.0,
        center_y: center.1,
    }
}

/// The rectangle that is cut out of a cell: the covered bounds, or the
/// cell's middle pixel where nothing is visible.
pub open spec fn frame_box(b: Bounds, fw: int, fh: int) -> (int, int, int, int) {
    if b.0 >= b.2 {
        (fw / 2, fh / 2, fw / 2 + 1, fh / 2 + 1)
    } else {
        (b.0 as int, b.1 as int, b.2 as int, b.3 as int)
    }
}

/// `out` is the frame of a cell with covered bounds `b` and anchor pixels
/// `h`: none where the cell shows nothing and has no head anchor; else the
/// cut-out pixels with the anchors relative to the cut-out.
pub open spec fn frame_matches(
    anim: &Bitmap,
    cell: Bounds,
    b: Bounds,
    h: AnchorHits,
    out: Option<Frame>,
) -> bool {
    let bx = frame_box(b, cell.2 - cell.0, cell.3 - cell.1);
    if b.0 >= b.2 && h.black is None {
        out is None
    } else {
        out matches Some(f) && f.image.wf() && f.offsets == anchors_of(h).shifted(-bx.0, -bx.1)
            && f.image.width == bx.2 - bx.0 && f.image.height == bx.3 - bx.1 && forall|
            i: int,
            j: int,
        |
            f.image.holds(i, j) ==> #[trigger] f.image.px(i, j) == anim.px(
                cell.0 + bx.0 + i,
                cell.1 + bx.1 + j,
            )
    }
}

/// `out` is the frame that the cell gives.
pub open spec fn cell_yields(anim: &Bitmap, offs: &Bitmap, cell: Bounds, out: Option<Frame>) -> bool {
    exists|b: Bounds, h: AnchorHits|
        is_covered_bounds(anim, cell, b) && hits_of(offs, cell, true, true, true, true, false, h)
            && #[trigger] frame_matches(anim, cell, b, h, out)
}

/// Two frames are duplicates: equal pixels and equal anchors, either as they
/// are or with the second frame reflected from left to right.
pub open spec fn duplicate(a: &Frame, b: &Frame) -> bool {
    ||| same_image(&a.image, &b.image, false) && same_offsets(
        &a.offsets,
        &b.offsets,
        b.image.width as int,
        false,
    )
    ||| same_image(&a.image, &b.image, true) && same_offsets(
        &a.offsets,
        &b.offsets,
        b.image.width as int,
        true,
    )
}

/// One of `frames` is a duplicate of `f`.
pub open spec fn covered(frames: Seq<Frame>, f: &Frame) -> bool {
    exists|k: int| 0 <= k < frames.len() && #[trigger] duplicate(&frames[k], f)
}

/// No frame is a duplicate of an earlier one.
pub open spec fn all_distinct(frames: Seq<Frame>) -> bool {
    forall|i: int, j: int| 0 <= i < j < frames.len() ==> !#[trigger] duplicate(&frames[i], &frames[j])
}

/// Every frame has a well-formed image and small anchors.
pub open spec fn frames_wf(frames: Seq<Frame>) -> bool {
    forall|k: int|
        0 <= k < frames.len() ==> (#[trigger] frames[k]).image.wf() && frames[k].offsets.small()
}

/// The cell lies inside both images of the sheet.
pub open spec fn cell_ok(s: &AnimSheet, row: int, col: int) -> bool {
    s.images matches Some(im) && cell_inside(&im.0, sheet_cell(s, row, col)) && cell_inside(
        &im.1,
        sheet_cell(s, row, col),
    )
}

/// The cell can be read: it lies inside both images, and its offsets hold no
/// anchor colour twice.
pub open spec fn cell_sound(s: &AnimSheet, row: int, col: int) -> bool {
    s.images matches Some(im) && cell_ok(s, row, col) && first_double(
        &im.1,
        sheet_cell(s, row, col),
        true,
        true,
        true,
        true,
        false,
    ) is None
}

/// The cell was read without fault, and the frame it gives, if any, has a
/// duplicate among `frames`.
pub open spec fn cell_done(s: &AnimSheet, row: int, col: int, frames: Seq<Frame>) -> bool {
    s.images matches Some(im) && cell_ok(s, row, col) && first_double(
        &im.1,
        sheet_cell(s, row, col),
        true,
        true,
        true,
        true,
        false,
    ) is None && exists|out: Option<Frame>| #[trigger]
        cell_yields(&im.0, &im.1, sheet_cell(s, row, col), out) && (out matches Some(f) ==> covered(
            frames,
            &f,
        ))
}

/// The cell cannot be read, and `e` says why: it does not lie inside both
/// images, or its offsets hold two anchor pixels of one colour.
pub open spec fn cell_failed(s: &AnimSheet, index: int, row: int, col: int, e: SheetError) -> bool {
    s.images matches Some(im) && if !cell_ok(s, row, col) {
        e == SheetError::CellOutOfBounds(index as usize)
    } else {
        first_double(&im.1, sheet_cell(s, row, col), true, true, true, true, false) matches Some(c)
            && e == SheetError::MultiplePixels(c)
    }
}

/// `f` is the frame of cell `(row, col)` of the sheet.
pub open spec fn frame_of_cell(s: &AnimSheet, row: int, col: int, f: Frame) -> bool {
    s.images matches Some(im) && is_cell(s, row, col) && cell_yields(
        &im.0,
        &im.1,
        sheet_cell(s, row, col),
        Some(f),
    )
}

/// `old` is the beginning of `new`.
pub open spec fn grown(old: Seq<Frame>, new: Seq<Frame>) -> bool {
    old.len() <= new.len() && new.subrange(0, old.len() as int) == old
}

/// A frame that has a duplicate in a list has one in every longer list.
pub proof fn lemma_covered_grows(old: Seq<Frame>, new: Seq<Frame>, f: &Frame)
    requires
        grown(old, new),
        covered(old, f),
    ensures
        covered(new, f),
{
    let k = choose|k: int| 0 <= k < old.len() && #[trigger] duplicate(&old[k], f);
    assert(new.subrange(0, old.len() as int)[k] == new[k]);
    assert(duplicate(&new[k], f));
}

/// A cell that is done with a list of frames is done with every longer list.
pub proof fn lemma_done_grows(s: &AnimSheet, row: int, col: int, old: Seq<Frame>, new: Seq<Frame>)
    requires
        grown(old, new),
        cell_done(s, row, col, old),
    ensures
        cell_done(s, row, col, new),
{
    let im = s.images->0;
    let out = choose|out: Option<Frame>| #[trigger]
        cell_yields(&im.0, &im.1, sheet_cell(s, row, col), out) && (out matches Some(f) ==> covered(
            old,
            &f,
        ));
    if let Some(f) = out {
        lemma_covered_grows(old, new, &f);
    }
    assert(cell_yields(&im.0, &im.1, sheet_cell(s, row, col), out));
}

/// Every anchor pixel that was found lies in a cell of the given size.
pub open spec fn hits_in_cell(h: AnchorHits, fw: int, fh: int) -> bool {
    &&& h.black matches Some(p) ==> 0 <= p.0 < fw && 0 <= p.1 < fh
    &&& h.red matches Some(p) ==> 0 <= p.0 < fw && 0 <= p.1 < fh
    &&& h.green matches Some(p) ==> 0 <= p.0 < fw && 0 <= p.1 < fh
    &&& h.blue matches Some(p) ==> 0 <= p.0 < fw && 0 <= p.1 < fh
}

/// Builds the frame of a cell from its covered bounds and its anchor pixels.
pub fn build_frame(anim: &Bitmap, cell: Bounds, b: Bounds, h: AnchorHits) -> (out: Option<Frame>)
    requires
        anim.wf(),
        cell_inside(anim, cell),
        cell.0 < cell.2,
        cell.1 < cell.3,
        b.0 < b.2 ==> 0 <= b.0 < b.2 <= cell.2 - cell.0 && 0 <= b.1 < b.3 <= cell.3 - cell.1,
        hits_in_cell(h, cell.2 - cell.0, cell.3 - cell.1),
    ensures
        frame_matches(anim, cell, b, h, out),
        out matches Some(f) ==> f.image.wf() && f.offsets.small(),
{
    let (xx, yy, xm, ym) = cell;
    let frame_size_x: i32 = xm - xx;
    let frame_size_y: i32 = ym - yy;
    let empty = b.0 >= b.2;
    let bb: Bounds = if empty {
        (frame_size_x / 2, frame_size_y / 2, frame_size_x / 2 + 1, frame_size_y / 2 + 1)
    } else {
        b
    };
    let mut offsets = SpriteOffsets::default();
    if let Some(p) = h.green {
        offsets.center_x = p.0;
        offsets.center_y = p.1;
    }
    let mut missing_tex = empty;
    match h.black {
        Some(p) => {
            offsets.head_x = p.0;
            offsets.head_y = p.1;
            missing_tex = false;
        },
        None => {
            offsets.head_x = offsets.center_x;
            offsets.head_y = offsets.center_y;
        },
    }
    if missing_tex {
        return None;
    }
    if let Some(p) = h.red {
        offsets.lhand_x = p.0;
        offsets.lhand_y = p.1;
    }
    if let Some(p) = h.blue {
        offsets.rhand_x = p.0;
        offsets.rhand_y = p.1;
    }
    assert(offsets == anchors_of(h));
    offsets.add_loc((-bb.0, -bb.1));
    let abs = add_to_bounds(bb, (xx, yy));
    let image = anim.crop(
        abs.0 as u32,
        abs.1 as u32,
        (abs.2 - abs.0) as u32,
        (abs.3 - abs.1) as u32,
    );
    let f = Frame { image, offsets };
    proof {
        let bx = frame_box(b, cell.2 - cell.0, cell.3 - cell.1);
        assert(bx == (bb.0 as int, bb.1 as int, bb.2 as int, bb.3 as int));
    }
    Some(f)
}

/// Reads the frame of one cell.
pub fn read_frame(anim: &Bitmap, offs: &Bitmap, cell: Bounds) -> (r: Result<Option<Frame>, SheetError>)
    requires
        anim.wf(),
        offs.wf(),
        cell_inside(anim, cell),
        cell_inside(offs, cell),
        cell.0 < cell.2,
        cell.1 < cell.3,
    ensures
        match r {
            Ok(out) => first_double(offs, cell, true, true, true, true, false) is None
                && cell_yields(anim, offs, cell, out) && (out matches Some(f) ==> f.image.wf()
                && f.offsets.small()),
            Err(e) => first_double(offs, cell, true, true, true, true, false) matches Some(c) && e
                == SheetError::MultiplePixels(c),
        },
{
    let b = get_covered_bounds(anim, cell);
    let h = match get_offset_from_rgb(offs, cell, true, true, true, true, false) {
        Ok(h) => h,
        Err(e) => {
            return Err(e);
        },
    };
    let out = build_frame(anim, cell, b, h);
    Ok(out)
}

/// Whether one of `frames` is a duplicate of `f`.
pub fn is_dupe(frames: &Vec<Frame>, f: &Frame) -> (r: bool)
    requires
        frames_wf(frames@),
        f.image.wf(),
    ensures
        r == covered(frames@, f),
{
    let mut k: usize = 0;
    while k < frames.len()
        invariant
            k <= frames.len(),
            frames_wf(frames@),
            f.image.wf(),
            forall|i: int| 0 <= i < k ==> !#[trigger] duplicate(&frames@[i], f),
        decreases frames.len() - k,
    {
        let cur = &frames[k];
        let w = f.image.width as i32;
        if imgs_equal(&cur.image, &f.image, false) && offsets_equal(
            &cur.offsets,
            &f.offsets,
            w,
            false,
        ) {
            assert(duplicate(&frames@[k as int], f));
            return true;
        }
        if imgs_equal(&cur.image, &f.image, true) && offsets_equal(&cur.offsets, &f.offsets, w, true) {
            assert(duplicate(&frames@[k as int], f));
            return true;
        }
        k += 1;
    }
    false
}

/// Every frame is a duplicate of itself.
pub proof fn lemma_duplicate_reflexive(f: &Frame)
    ensures
        duplicate(f, f),
{
}

/// If one frame is a duplicate of another, the other is a duplicate of the
/// first.
pub proof fn lemma_duplicate_symmetric(a: &Frame, b: &Frame)
    requires
        duplicate(a, b),
    ensures
        duplicate(b, a),
{
    if same_image(&a.image, &b.image, false) && same_offsets(
        &a.offsets,
        &b.offsets,
        b.image.width as int,
        false,
    ) {
        assert forall|x: int, y: int| b.image.holds(x, y) implies #[trigger] b.image.px(x, y)
            == a.image.px(x, y) by {
            assert(a.image.holds(x, y));
            assert(a.image.px(x, y) == b.image.px(x, y));
        }
        assert(same_image(&b.image, &a.image, false));
    } else {
        let w = a.image.width as int;
        assert forall|x: int, y: int| b.image.holds(x, y) implies #[trigger] b.image.px(x, y)
            == a.image.px(w - 1 - x, y) by {
            assert(a.image.holds(w - 1 - x, y));
            assert(a.image.px(w - 1 - x, y) == b.image.px(w - 1 - (w - 1 - x), y));
        }
        assert(same_image(&b.image, &a.image, true));
    }
}

/// If one frame is a duplicate of a second, and the second of a third, the
/// first is a duplicate of the third.
pub proof fn lemma_duplicate_transitive(a: &Frame, b: &Frame, c: &Frame)
    requires
        duplicate(a, b),
        duplicate(b, c),
    ensures
        duplicate(a, c),
{
    let w = a.image.width as int;
    let ab = !(same_image(&a.image, &b.image, false) && same_offsets(
        &a.offsets,
        &b.offsets,
        b.image.width as int,
        false,
    ));
    let bc = !(same_image(&b.image, &c.image, false) && same_offsets(
        &b.offsets,
        &c.offsets,
        c.image.width as int,
        false,
    ));
    assert(b.image.width == w && c.image.width == w);
    assert forall|x: int, y: int| a.image.holds(x, y) implies #[trigger] a.image.px(x, y)
        == c.image.px(
        if ab != bc {
            w - 1 - x
        } else {
            x
        },
        y,
    ) by {
        let xb = if ab {
            w - 1 - x
        } else {
            x
        };
        assert(a.image.px(x, y) == b.image.px(xb, y));
        assert(b.image.holds(xb, y));
        let xc = if bc {
            w - 1 - xb
        } else {
            xb
        };
        assert(b.image.px(xb, y) == c.image.px(xc, y));
    }
    assert(same_image(&a.image, &c.image, ab != bc));
    assert(same_offsets(&a.offsets, &c.offsets, w, ab != bc));
}

/// The anchor pixel of a class in a cell is one thing: two answers to the
/// question are the same.
pub proof fn lemma_only_hit_unique(
    img: &Bitmap,
    cell: Bounds,
    c: AnchorColor,
    wanted: bool,
    h1: Option<(i32, i32)>,
    h2: Option<(i32, i32)>,
)
    requires
        class_result(img, cell, c, wanted, h1),
        class_result(img, cell, c, wanted, h2),
    ensures
        h1 == h2,
{
    if wanted {
        match (h1, h2) {
            (Some(p), Some(q)) => {
                assert(hit_at(img, cell, c, cell.0 + p.0, cell.1 + p.1));
                assert(hit_at(img, cell, c, cell.0 + q.0, cell.1 + q.1));
            },
            (Some(p), None) => {
                assert(hit_at(img, cell, c, cell.0 + p.0, cell.1 + p.1));
            },
            (None, Some(q)) => {
                assert(hit_at(img, cell, c, cell.0 + q.0, cell.1 + q.1));
            },
            (None, None) => {},
        }
    }
}

/// The covered bounds of a cell are one thing: two answers are the same.
pub proof fn lemma_covered_bounds_unique(img: &Bitmap, cell: Bounds, r1: Bounds, r2: Bounds)
    requires
        is_covered_bounds(img, cell, r1),
        is_covered_bounds(img, cell, r2),
    ensures
        r1 == r2,
{
    if any_opaque(img, cell) {
        let d = (cell.0 as int, cell.1 as int);
        let a = moved(r1, d);
        let b = moved(r2, d);
        assert(tight_box(img, cell, a));
        assert(tight_box(img, cell, b));
        let ya = choose|y: int| in_cell(cell, a.0, y) && #[trigger] opaque(img, a.0, y);
        assert(b.0 <= a.0);
        let yb = choose|y: int| in_cell(cell, b.0, y) && #[trigger] opaque(img, b.0, y);
        assert(a.0 <= b.0);
        let ya2 = choose|y: int| in_cell(cell, a.2 - 1, y) && #[trigger] opaque(img, a.2 - 1, y);
        assert(a.2 - 1 < b.2);
        let yb2 = choose|y: int| in_cell(cell, b.2 - 1, y) && #[trigger] opaque(img, b.2 - 1, y);
        assert(b.2 - 1 < a.2);
        let xa = choose|x: int| in_cell(cell, x, a.1) && #[trigger] opaque(img, x, a.1);
        assert(b.1 <= a.1);
        let xb = choose|x: int| in_cell(cell, x, b.1) && #[trigger] opaque(img, x, b.1);
        assert(a.1 <= b.1);
        let xa2 = choose|x: int| in_cell(cell, x, a.3 - 1) && #[trigger] opaque(img, x, a.3 - 1);
        assert(a.3 - 1 < b.3);
        let xb2 = choose|x: int| in_cell(cell, x, b.3 - 1) && #[trigger] opaque(img, x, b.3 - 1);
        assert(b.3 - 1 < a.3);
        assert(a == b);
    }
}

/// Two frames that one cell gives show the same pixels and the same
/// anchors; and a cell that gives a frame does not give none.
pub proof fn lemma_cell_yields_alike(
    anim: &Bitmap,
    offs: &Bitmap,
    cell: Bounds,
    out1: Option<Frame>,
    out2: Option<Frame>,
)
    requires
        cell_yields(anim, offs, cell, out1),
        cell_yields(anim, offs, cell, out2),
    ensures
        out1 is Some <==> out2 is Some,
        out1 is Some ==> duplicate(&out1->0, &out2->0),
{
    let (b1, h1) = choose|b: Bounds, h: AnchorHits|
        is_covered_bounds(anim, cell, b) && hits_of(offs, cell, true, true, true, true, false, h)
            && #[trigger] frame_matches(anim, cell, b, h, out1);
    let (b2, h2) = choose|b: Bounds, h: AnchorHits|
        is_covered_bounds(anim, cell, b) && hits_of(offs, cell, true, true, true, true, false, h)
            && #[trigger] frame_matches(anim, cell, b, h, out2);
    lemma_covered_bounds_unique(anim, cell, b1, b2);
    lemma_only_hit_unique(offs, cell, AnchorColor::Black, true, h1.black, h2.black);
    lemma_only_hit_unique(offs, cell, AnchorColor::Red, true, h1.red, h2.red);
    lemma_only_hit_unique(offs, cell, AnchorColor::Green, true, h1.green, h2.green);
    lemma_only_hit_unique(offs, cell, AnchorColor::Blue, true, h1.blue, h2.blue);
    lemma_only_hit_unique(offs, cell, AnchorColor::White, false, h1.white, h2.white);
    assert(h1 == h2);
    if out1 is Some {
        let f = out1->0;
        let g = out2->0;
        assert(same_image(&f.image, &g.image, false));
        assert(same_offsets(&f.offsets, &g.offsets, g.image.width as int, false));
    }
}

/// `g` is `f` reflected from left to right: the same size, every pixel and
/// every anchor at its mirrored place.
pub open spec fn is_mirror(f: &Frame, g: &Frame) -> bool {
    &&& g.image.width == f.image.width
    &&& g.image.height == f.image.height
    &&& forall|x: int, y: int|
        g.image.holds(x, y) ==> #[trigger] g.image.px(x, y) == f.image.px(
            f.image.width - 1 - x,
            y,
        )
    &&& g.offsets.coords() == f.offsets.mirrored(f.image.width as int)
}

/// A frame and its reflection are duplicates of each other.
pub proof fn lemma_mirror_is_duplicate(f: &Frame, g: &Frame)
    requires
        is_mirror(f, g),
    ensures
        duplicate(f, g),
        duplicate(g, f),
{
    let w = f.image.width as int;
    assert forall|x: int, y: int| f.image.holds(x, y) implies #[trigger] f.image.px(x, y)
        == g.image.px(w - 1 - x, y) by {
        assert(g.image.holds(w - 1 - x, y));
        assert(g.image.px(w - 1 - x, y) == f.image.px(w - 1 - (w - 1 - x), y));
    }
    assert(same_image(&f.image, &g.image, true));
    assert(same_offsets(&f.offsets, &g.offsets, g.image.width as int, true));
    lemma_duplicate_symmetric(f, g);
}

} // verus!
