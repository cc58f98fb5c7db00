//! The sprite recolor sheet of a form: every distinct frame of its
//! animations, packed into a square grid of equal tiles, with the palette in
//! the first row.

use vstd::prelude::*;
use crate::anim_data::{Anim, AnimDataXml};
use crate::bitmap::{Bitmap, MAX_SIDE, Pixel, blank};
use crate::cache::CacheBehaviour;
use crate::error::SheetError;
use crate::img_util::{add_palette_to, decode_image, palette_of, png_encoded, rgba_of, to_png};
use crate::portrait_sheets::{file_image, find_file};
use crate::text::{append_str, chars_of, string_of};
use crate::ordered::{dim_entries, dims_get_index, dims_insert, dims_len, dims_new, upserted};
use crate::sprite_frames::{
    AnimSheet,
    Frame,
    all_distinct,
    cell_done,
    cell_failed,
    cell_ok,
    cell_sound,
    cell_yields,
    clockwise_row,
    covered,
    duplicate,
    frame_of_cell,
    frames_wf,
    grown,
    is_cell,
    is_dupe,
    lemma_cell_yields_alike,
    lemma_done_grows,
    lemma_duplicate_reflexive,
    lemma_duplicate_symmetric,
    lemma_duplicate_transitive,
    read_frame,
    sheet_cell,
};
use crate::sprite_offsets::{Bounds, max_int, round_up_to_mult, rounded_up};

verus! {

/// The frames from `from` on each come from a cell of row `row` of the sheet.
pub open spec fn new_from_row(s: &AnimSheet, row: int, frames: Seq<Frame>, from: int) -> bool {
    forall|k: int| from <= k < frames.len() ==> #[trigger] in_row(s, row, frames[k])
}

/// `f` comes from a cell of row `row` of the sheet.
pub open spec fn in_row(s: &AnimSheet, row: int, f: Frame) -> bool {
    exists|col: int| #[trigger] frame_of_cell(s, row, col, f)
}

/// `f` comes from a cell of the sheet.
pub open spec fn in_sheet(s: &AnimSheet, f: Frame) -> bool {
    exists|row: int, col: int| #[trigger] frame_of_cell(s, row, col, f)
}

/// `f` comes from a cell of one of the sheets.
pub open spec fn in_sheets(sheets: Seq<AnimSheet>, f: Frame) -> bool {
    exists|s: int, row: int, col: int|
        0 <= s < sheets.len() && #[trigger] frame_of_cell(&sheets[s], row, col, f)
}

/// The frames from `from` on each come from a cell of the sheet.
pub open spec fn new_from_sheet(s: &AnimSheet, frames: Seq<Frame>, from: int) -> bool {
    forall|k: int| from <= k < frames.len() ==> #[trigger] in_sheet(s, frames[k])
}

/// The frames from `from` on come from the cells of row `row` in the columns
/// `cols`, one frame per column, from the left; and when a frame was added,
/// every cell to the left of its own had been read.
pub open spec fn row_order(s: &AnimSheet, row: int, frames: Seq<Frame>, from: int, cols: Seq<int>) -> bool {
    &&& cols.len() == frames.len() - from
    &&& forall|k: int|
        0 <= k < cols.len() ==> frame_of_cell(s, row, #[trigger] cols[k], frames[from + k])
    &&& forall|a: int, b: int| 0 <= a < b < cols.len() ==> cols[a] < cols[b]
    &&& forall|k: int, c: int|
        0 <= k < cols.len() && is_cell(s, row, c) && c < cols[k] ==> #[trigger] cell_done(
            s,
            row,
            c,
            frames.subrange(0, from + k),
        )
}

/// The cell `a` is read before the cell `b`: an earlier row, or an earlier
/// column of the same row.
pub open spec fn cell_before(a: (int, int), b: (int, int)) -> bool {
    a.0 < b.0 || (a.0 == b.0 && a.1 < b.1)
}

/// The frames from `from` on come from the cells `cells` of the sheet, each
/// given by its direction and its column, one frame per cell, in the order
/// in which the cells are read; and when a frame was added, every cell that
/// is read before its own had been read.
pub open spec fn sheet_order(s: &AnimSheet, frames: Seq<Frame>, from: int, cells: Seq<(int, int)>) -> bool {
    &&& cells.len() == frames.len() - from
    &&& forall|k: int|
        0 <= k < cells.len() ==> frame_of_cell(
            s,
            (#[trigger] cells[k]).0,
            cells[k].1,
            frames[from + k],
        )
    &&& forall|a: int, b: int| 0 <= a < b < cells.len() ==> cell_before(cells[a], cells[b])
    &&& forall|k: int, r: int, c: int|
        0 <= k < cells.len() && is_cell(s, r, c) && cell_before((r, c), cells[k])
            ==> #[trigger] cell_done(s, r, c, frames.subrange(0, from + k))
}

/// The cell `a` of the sheets is read before the cell `b`: an earlier sheet,
/// or an earlier cell of the same sheet.
pub open spec fn source_before(a: (int, int, int), b: (int, int, int)) -> bool {
    a.0 < b.0 || (a.0 == b.0 && cell_before((a.1, a.2), (b.1, b.2)))
}

/// The frames come from the cells `cells` of the sheets, each given by its
/// sheet, its direction and its column, one frame per cell, in the order in
/// which the cells are read; and when a frame was added, every cell that is
/// read before its own had been read, so that its frame, if it gives one, has
/// a duplicate among the frames before.
pub open spec fn frames_in_order(sheets: Seq<AnimSheet>, frames: Seq<Frame>, cells: Seq<(int, int, int)>) -> bool {
    &&& cells.len() == frames.len()
    &&& forall|k: int|
        0 <= k < cells.len() ==> 0 <= (#[trigger] cells[k]).0 < sheets.len() && frame_of_cell(
            &sheets[cells[k].0],
            cells[k].1,
            cells[k].2,
            frames[k],
        )
    &&& forall|a: int, b: int| 0 <= a < b < cells.len() ==> source_before(cells[a], cells[b])
    &&& forall|k: int, t: int, r: int, c: int|
        0 <= k < cells.len() && 0 <= t < sheets.len() && is_cell(&sheets[t], r, c) && source_before(
            (t, r, c),
            cells[k],
        ) ==> #[trigger] cell_done(&sheets[t], r, c, frames.subrange(0, k))
}

/// Every cell of the row to the left of column `col` can be read.
pub open spec fn row_sound_before(s: &AnimSheet, row: int, col: int) -> bool {
    forall|c: int| is_cell(s, row, c) && c < col ==> #[trigger] cell_sound(s, row, c)
}

/// Every cell of the sheet that is read before the cell `(row, col)` can be
/// read.
pub open spec fn sheet_sound_before(s: &AnimSheet, row: int, col: int) -> bool {
    forall|r: int, c: int|
        is_cell(s, r, c) && cell_before((r, c), (row, col)) ==> #[trigger] cell_sound(s, r, c)
}

/// Every cell of the sheets that is read before the cell `(row, col)` of the
/// sheet `i` can be read.
pub open spec fn sheets_sound_before(sheets: Seq<AnimSheet>, i: int, row: int, col: int) -> bool {
    forall|t: int, r: int, c: int|
        0 <= t < sheets.len() && is_cell(&sheets[t], r, c) && source_before((t, r, c), (i, row, col))
            ==> #[trigger] cell_sound(&sheets[t], r, c)
}

/// Adds `f` to `frames` unless one of them is a duplicate of it.
pub fn push_unique(frames: &mut Vec<Frame>, f: Frame)
    requires
        frames_wf(old(frames)@),
        all_distinct(old(frames)@),
        f.image.wf(),
        f.offsets.small(),
    ensures
        final(frames)@ == (if covered(old(frames)@, &f) {
            old(frames)@
        } else {
            old(frames)@.push(f)
        }),
        frames_wf(final(frames)@),
        all_distinct(final(frames)@),
        covered(final(frames)@, &f),
        grown(old(frames)@, final(frames)@),
{
    if !is_dupe(frames, &f) {
        frames.push(f);
        proof {
            let all = frames@;
            assert(all.subrange(0, old(frames)@.len() as int) =~= old(frames)@);
            assert forall|i: int, j: int| 0 <= i < j < all.len() implies !#[trigger] duplicate(
                &all[i],
                &all[j],
            ) by {
                if j == all.len() - 1 {
                    assert(all[i] == old(frames)@[i]);
                    assert(!duplicate(&old(frames)@[i], &f));
                } else {
                    assert(all[i] == old(frames)@[i] && all[j] == old(frames)@[j]);
                }
            }
            lemma_duplicate_reflexive(&f);
            assert(duplicate(&all[all.len() - 1], &f));
        }
    } else {
        assert(frames@.subrange(0, old(frames)@.len() as int) =~= old(frames)@);
    }
}

/// Reads the cells of one row of a sheet, from the left, and adds their
/// frames.
fn scan_row(sheet: &AnimSheet, index: usize, row: u32, frames: &mut Vec<Frame>) -> (r: Result<
    (),
    SheetError,
>)
    requires
        sheet.wf(),
        sheet.images is Some,
        row * sheet.frame_height < sheet.anim_height(),
        frames_wf(old(frames)@),
        all_distinct(old(frames)@),
    ensures
        r is Ok ==> {
            &&& frames_wf(final(frames)@)
            &&& all_distinct(final(frames)@)
            &&& grown(old(frames)@, final(frames)@)
            &&& forall|col: int|
                is_cell(sheet, row as int, col) ==> #[trigger] cell_done(
                    sheet,
                    row as int,
                    col,
                    final(frames)@,
                )
            &&& new_from_row(sheet, row as int, final(frames)@, old(frames)@.len() as int)
            &&& exists|cols: Seq<int>| #[trigger]
                row_order(sheet, row as int, final(frames)@, old(frames)@.len() as int, cols)
        },
        r matches Err(e) ==> exists|col: int|
            is_cell(sheet, row as int, col) && #[trigger] cell_failed(
                sheet,
                index as int,
                row as int,
                col,
                e,
            ) && row_sound_before(sheet, row as int, col),
{
    let pair = match &sheet.images {
        Some(pair) => pair,
        None => {
            assert(false);
            return Ok(());
        },
    };
    let anim = &pair.0;
    let offs = &pair.1;
    let fw = sheet.frame_width;
    let fh = sheet.frame_height;
    let k: u32 = (8 - row % 8) % 8;
    assert(k == clockwise_row(row as int));
    assert(k * fh <= 7 * 0x0800_0000) by (nonlinear_arith)
        requires
            0 <= k <= 7,
            0 < fh <= 0x0800_0000,
    ;
    let yy: i32 = (k as i32) * fh;
    let mut col: u32 = 0;
    let mut xx: i32 = 0;
    let ghost mut cols: Seq<int> = Seq::empty();
    assert(frames@.subrange(0, frames@.len() as int) =~= frames@);
    while (xx as u32) < anim.width
        invariant
            sheet.wf(),
            sheet.images == Some(*pair),
            anim == &pair.0,
            offs == &pair.1,
            fw == sheet.frame_width,
            fh == sheet.frame_height,
            row * fh < anim.height,
            yy == clockwise_row(row as int) * fh,
            0 <= yy <= 7 * 0x0800_0000,
            xx == col * fw,
            col <= xx,
            0 <= xx <= anim.width,
            frames_wf(frames@),
            all_distinct(frames@),
            grown(old(frames)@, frames@),
            forall|c: int|
                is_cell(sheet, row as int, c) && c < col ==> #[trigger] cell_done(
                    sheet,
                    row as int,
                    c,
                    frames@,
                ),
            new_from_row(sheet, row as int, frames@, old(frames)@.len() as int),
            row_order(sheet, row as int, frames@, old(frames)@.len() as int, cols),
            forall|k: int| 0 <= k < cols.len() ==> cols[k] < col,
        decreases anim.width - xx,
    {
        let cell: Bounds = (xx, yy, xx + fw, yy + fh);
        assert(cell == sheet_cell(sheet, row as int, col as int));
        assert(is_cell(sheet, row as int, col as int));
        let inside = (cell.2 as u32) <= anim.width && (cell.3 as u32) <= anim.height && (
        cell.2 as u32) <= offs.width && (cell.3 as u32) <= offs.height;
        assert(inside == cell_ok(sheet, row as int, col as int));
        assert(row_sound_before(sheet, row as int, col as int)) by {
            assert forall|c: int| is_cell(sheet, row as int, c) && c < col implies #[trigger] cell_sound(
                sheet,
                row as int,
                c,
            ) by {
                assert(cell_done(sheet, row as int, c, frames@));
            }
        }
        if !inside {
            assert(cell_failed(
                sheet,
                index as int,
                row as int,
                col as int,
                SheetError::CellOutOfBounds(index),
            ));
            return Err(SheetError::CellOutOfBounds(index));
        }
        let ghost before = frames@;
        match read_frame(anim, offs, cell) {
            Err(e) => {
                assert(cell_failed(sheet, index as int, row as int, col as int, e));
                return Err(e);
            },
            Ok(out) => {
                match out {
                    None => {
                        assert(cell_done(sheet, row as int, col as int, frames@));
                    },
                    Some(f) => {
                        let ghost fr = f;
                        push_unique(frames, f);
                        proof {
                            assert(cell_done(sheet, row as int, col as int, frames@));
                            assert forall|c: int|
                                is_cell(sheet, row as int, c) && c < col implies #[trigger] cell_done(
                                sheet,
                                row as int,
                                c,
                                frames@,
                            ) by {
                                lemma_done_grows(sheet, row as int, c, before, frames@);
                            }
                            assert(frames@.subrange(0, old(frames)@.len() as int) =~= old(
                                frames,
                            )@) by {
                                assert(before.subrange(0, old(frames)@.len() as int) == old(
                                    frames,
                                )@);
                                assert forall|i: int| 0 <= i < old(frames)@.len() implies frames@[i]
                                    == old(frames)@[i] by {
                                    assert(frames@.subrange(0, before.len() as int)[i] == frames@[i]);
                                    assert(before.subrange(0, old(frames)@.len() as int)[i]
                                        == before[i]);
                                }
                            }
                            assert forall|k: int|
                                old(frames)@.len() <= k < frames@.len() implies #[trigger] in_row(
                                sheet,
                                row as int,
                                frames@[k],
                            ) by {
                                if k < before.len() {
                                    assert(frames@.subrange(0, before.len() as int)[k] == frames@[k]);
                                    assert(in_row(sheet, row as int, before[k]));
                                } else {
                                    assert(frames@[k] == fr);
                                    assert(frame_of_cell(sheet, row as int, col as int, frames@[k]));
                                }
                            }
                            let from = old(frames)@.len() as int;
                            let old_cols = cols;
                            if frames@.len() > before.len() {
                                cols = cols.push(col as int);
                                assert(frames@[before.len() as int] == fr);
                                assert(frame_of_cell(sheet, row as int, col as int, fr));
                            }
                            assert forall|k: int| 0 <= k < cols.len() implies frame_of_cell(
                                sheet,
                                row as int,
                                #[trigger] cols[k],
                                frames@[from + k],
                            ) by {
                                if k < old_cols.len() {
                                    assert(cols[k] == old_cols[k]);
                                    assert(frames@.subrange(0, before.len() as int)[from + k]
                                        == frames@[from + k]);
                                    assert(frame_of_cell(
                                        sheet,
                                        row as int,
                                        old_cols[k],
                                        before[from + k],
                                    ));
                                }
                            }
                            assert forall|a: int, b: int| 0 <= a < b < cols.len() implies cols[a]
                                < cols[b] by {
                                if b < old_cols.len() {
                                    assert(old_cols[a] < old_cols[b]);
                                } else {
                                    assert(old_cols[a] < col);
                                }
                            }
                            assert forall|k: int, c: int|
                                0 <= k < cols.len() && is_cell(sheet, row as int, c) && c
                                    < cols[k] implies #[trigger] cell_done(
                                sheet,
                                row as int,
                                c,
                                frames@.subrange(0, from + k),
                            ) by {
                                if k < old_cols.len() {
                                    assert(cols[k] == old_cols[k]);
                                    assert(frames@.subrange(0, from + k) =~= before.subrange(
                                        0,
                                        from + k,
                                    )) by {
                                        assert forall|i: int| 0 <= i < from + k implies frames@[i]
                                            == before[i] by {
                                            assert(frames@.subrange(0, before.len() as int)[i]
                                                == frames@[i]);
                                        }
                                    }
                                } else {
                                    assert(cols[k] == col);
                                    assert(frames@.subrange(0, from + k) =~= before) by {
                                        assert(frames@.subrange(0, before.len() as int) == before);
                                    }
                                    assert(cell_done(sheet, row as int, c, before));
                                }
                            }
                        }
                    },
                }
            },
        }
        proof {
            assert((col + 1) * fw == col * fw + fw) by (nonlinear_arith);
        }
        col += 1;
        xx += fw;
    }
    proof {
        assert forall|c: int| is_cell(sheet, row as int, c) implies #[trigger] cell_done(
            sheet,
            row as int,
            c,
            frames@,
        ) by {
            if c >= col {
                assert(c * fw >= col * fw) by (nonlinear_arith)
                    requires
                        c >= col,
                        fw > 0,
                ;
            }
        }
    }
    Ok(())
}

/// Reads all cells of one sheet, row by row, and adds their frames.
fn scan_sheet(sheet: &AnimSheet, index: usize, frames: &mut Vec<Frame>) -> (r: Result<
    (),
    SheetError,
>)
    requires
        sheet.wf(),
        frames_wf(old(frames)@),
        all_distinct(old(frames)@),
    ensures
        r is Ok ==> {
            &&& frames_wf(final(frames)@)
            &&& all_distinct(final(frames)@)
            &&& grown(old(frames)@, final(frames)@)
            &&& forall|row: int, col: int|
                is_cell(sheet, row, col) ==> #[trigger] cell_done(sheet, row, col, final(frames)@)
            &&& new_from_sheet(sheet, final(frames)@, old(frames)@.len() as int)
            &&& exists|cells: Seq<(int, int)>| #[trigger]
                sheet_order(sheet, final(frames)@, old(frames)@.len() as int, cells)
        },
        r matches Err(e) ==> exists|row: int, col: int|
            is_cell(sheet, row, col) && #[trigger] cell_failed(sheet, index as int, row, col, e)
                && sheet_sound_before(sheet, row, col),
{
    let height: u32 = match &sheet.images {
        Some(pair) => pair.0.height,
        None => {
            assert(frames@.subrange(0, frames@.len() as int) =~= frames@);
            assert(sheet_order(sheet, frames@, frames@.len() as int, Seq::<(int, int)>::empty()));
            return Ok(());
        },
    };
    let fh = sheet.frame_height;
    let mut row: u32 = 0;
    let mut base: i32 = 0;
    let ghost mut cells: Seq<(int, int)> = Seq::empty();
    assert(frames@.subrange(0, frames@.len() as int) =~= frames@);
    while (base as u32) < height
        invariant
            sheet.wf(),
            sheet.images is Some,
            height == sheet.anim_height(),
            fh == sheet.frame_height,
            base == row * fh,
            row <= base,
            0 <= base <= height + fh,
            frames_wf(frames@),
            all_distinct(frames@),
            grown(old(frames)@, frames@),
            forall|r: int, c: int|
                is_cell(sheet, r, c) && r < row ==> #[trigger] cell_done(sheet, r, c, frames@),
            new_from_sheet(sheet, frames@, old(frames)@.len() as int),
            sheet_order(sheet, frames@, old(frames)@.len() as int, cells),
            forall|k: int| 0 <= k < cells.len() ==> (#[trigger] cells[k]).0 < row,
        decreases height + fh - base,
    {
        let ghost before = frames@;
        assert forall|r: int, c: int| is_cell(sheet, r, c) && r < row implies #[trigger] cell_sound(
            sheet,
            r,
            c,
        ) by {
            assert(cell_done(sheet, r, c, frames@));
        }
        match scan_row(sheet, index, row, frames) {
            Err(e) => {
                proof {
                    let c = choose|c: int|
                        is_cell(sheet, row as int, c) && #[trigger] cell_failed(
                            sheet,
                            index as int,
                            row as int,
                            c,
                            e,
                        ) && row_sound_before(sheet, row as int, c);
                    assert(is_cell(sheet, row as int, c) && cell_failed(
                        sheet,
                        index as int,
                        row as int,
                        c,
                        e,
                    ));
                    assert(sheet_sound_before(sheet, row as int, c));
                }
                return Err(e);
            },
            Ok(()) => {
                proof {
                    assert forall|r: int, c: int| is_cell(sheet, r, c) && r < row + 1 implies #[trigger] cell_done(
                    sheet, r, c, frames@) by {
                        if r < row {
                            lemma_done_grows(sheet, r, c, before, frames@);
                        }
                    }
                    assert forall|i: int| 0 <= i < before.len() implies frames@[i] == before[i] by {
                        assert(frames@.subrange(0, before.len() as int)[i] == frames@[i]);
                    }
                    assert(frames@.subrange(0, old(frames)@.len() as int) =~= old(frames)@) by {
                        assert forall|i: int| 0 <= i < old(frames)@.len() implies frames@[i]
                            == old(frames)@[i] by {
                            assert(before.subrange(0, old(frames)@.len() as int)[i] == before[i]);
                        }
                    }
                    assert forall|k: int|
                        old(frames)@.len() <= k < frames@.len() implies #[trigger] in_sheet(
                        sheet,
                        frames@[k],
                    ) by {
                        if k < before.len() {
                            assert(in_sheet(sheet, before[k]));
                        } else {
                            assert(in_row(sheet, row as int, frames@[k]));
                            let c = choose|c: int| #[trigger]
                                frame_of_cell(sheet, row as int, c, frames@[k]);
                            assert(frame_of_cell(sheet, row as int, c, frames@[k]));
                        }
                    }
                    assert((row + 1) * fh == row * fh + fh) by (nonlinear_arith);
                    let from = old(frames)@.len() as int;
                    let cols = choose|cols: Seq<int>| #[trigger]
                        row_order(sheet, row as int, frames@, before.len() as int, cols);
                    let old_cells = cells;
                    let added = Seq::new(cols.len(), |k: int| (row as int, cols[k]));
                    cells = old_cells + added;
                    assert(old_cells.len() == before.len() - from);
                    assert forall|k: int| 0 <= k < cells.len() implies frame_of_cell(
                        sheet,
                        (#[trigger] cells[k]).0,
                        cells[k].1,
                        frames@[from + k],
                    ) by {
                        if k < old_cells.len() {
                            assert(cells[k] == old_cells[k]);
                            assert(frames@[from + k] == before[from + k]);
                            assert(frame_of_cell(
                                sheet,
                                old_cells[k].0,
                                old_cells[k].1,
                                before[from + k],
                            ));
                        } else {
                            let j = k - old_cells.len();
                            assert(cells[k] == added[j]);
                            assert(frame_of_cell(
                                sheet,
                                row as int,
                                cols[j],
                                frames@[before.len() + j],
                            ));
                        }
                    }
                    assert forall|a: int, b: int| 0 <= a < b < cells.len() implies cell_before(
                        cells[a],
                        cells[b],
                    ) by {
                        if b < old_cells.len() {
                            assert(cell_before(old_cells[a], old_cells[b]));
                        } else if a < old_cells.len() {
                            assert(cells[a] == old_cells[a]);
                            assert(old_cells[a].0 < row);
                            assert(cells[b] == added[b - old_cells.len()]);
                        } else {
                            assert(cells[a] == added[a - old_cells.len()]);
                            assert(cells[b] == added[b - old_cells.len()]);
                            assert(cols[a - old_cells.len()] < cols[b - old_cells.len()]);
                        }
                    }
                    assert forall|k: int| 0 <= k < cells.len() implies (#[trigger] cells[k]).0 < row
                        + 1 by {
                        if k < old_cells.len() {
                            assert(cells[k] == old_cells[k]);
                        } else {
                            assert(cells[k] == added[k - old_cells.len()]);
                        }
                    }
                    assert forall|k: int, r: int, c: int|
                        0 <= k < cells.len() && is_cell(sheet, r, c) && cell_before(
                            (r, c),
                            cells[k],
                        ) implies #[trigger] cell_done(sheet, r, c, frames@.subrange(0, from + k)) by {
                        if k < old_cells.len() {
                            assert(cells[k] == old_cells[k]);
                            assert(frames@.subrange(0, from + k) =~= before.subrange(0, from + k));
                        } else {
                            let j = k - old_cells.len();
                            assert(cells[k] == added[j]);
                            assert(from + k == before.len() + j);
                            if r < row {
                                let part = frames@.subrange(0, before.len() + j);
                                assert(part.subrange(0, before.len() as int) =~= before);
                                assert(cell_done(sheet, r, c, before));
                                lemma_done_grows(sheet, r, c, before, part);
                            } else {
                                assert(r == row && c < cols[j]);
                            }
                        }
                    }
                }
            },
        }
        row += 1;
        base += fh;
    }
    proof {
        assert forall|r: int, c: int| is_cell(sheet, r, c) implies #[trigger] cell_done(
            sheet,
            r,
            c,
            frames@,
        ) by {
            if r >= row {
                assert(r * fh >= row * fh) by (nonlinear_arith)
                    requires
                        r >= row,
                        fh > 0,
                ;
            }
        }
    }
    Ok(())
}

/// Every sheet is well formed.
pub open spec fn sheets_wf(sheets: Seq<AnimSheet>) -> bool {
    forall|s: int| 0 <= s < sheets.len() ==> (#[trigger] sheets[s]).wf()
}

/// Every frame comes from a cell of one of the sheets.
pub open spec fn all_from_sheets(sheets: Seq<AnimSheet>, frames: Seq<Frame>) -> bool {
    forall|k: int| 0 <= k < frames.len() ==> #[trigger] in_sheets(sheets, frames[k])
}

/// Every cell of every sheet was read without fault and its frame, if it
/// gives one, has a duplicate among `frames`.
pub open spec fn all_cells_done(sheets: Seq<AnimSheet>, frames: Seq<Frame>) -> bool {
    forall|s: int, row: int, col: int|
        0 <= s < sheets.len() && is_cell(&sheets[s], row, col) ==> #[trigger] cell_done(
            &sheets[s],
            row,
            col,
            frames,
        )
}

/// Some cell of some sheet cannot be read, for the reason that `e` gives,
/// and every cell that is read before it can.
pub open spec fn some_cell_failed(sheets: Seq<AnimSheet>, e: SheetError) -> bool {
    exists|s: int, row: int, col: int|
        0 <= s < sheets.len() && is_cell(&sheets[s], row, col) && #[trigger] cell_failed(
            &sheets[s],
            s,
            row,
            col,
            e,
        ) && sheets_sound_before(sheets, s, row, col)
}

/// Collects the distinct frames of a form's animations. Sheets without images
/// are passed over. The frames come in the order of the sheets, the rows and
/// the columns; a frame that duplicates an earlier one, as it is or
/// reflected, is left out. A cell outside an image or with two anchor pixels
/// of one colour stops the collection.
pub fn get_sprite_frames(sheets: &Vec<AnimSheet>) -> (r: Result<Vec<Frame>, SheetError>)
    requires
        sheets_wf(sheets@),
    ensures
        match r {
            Ok(frames) => {
                &&& frames_wf(frames@)
                &&& all_distinct(frames@)
                &&& all_cells_done(sheets@, frames@)
                &&& all_from_sheets(sheets@, frames@)
                &&& exists|cells: Seq<(int, int, int)>| #[trigger]
                    frames_in_order(sheets@, frames@, cells)
            },
            Err(e) => some_cell_failed(sheets@, e),
        },
{
    let mut frames: Vec<Frame> = Vec::new();
    let mut s: usize = 0;
    let ghost mut sources: Seq<(int, int, int)> = Seq::empty();
    while s < sheets.len()
        invariant
            s <= sheets.len(),
            sheets_wf(sheets@),
            frames_wf(frames@),
            all_distinct(frames@),
            forall|i: int, row: int, col: int|
                0 <= i < s && is_cell(&sheets@[i], row, col) ==> #[trigger] cell_done(
                    &sheets@[i],
                    row,
                    col,
                    frames@,
                ),
            all_from_sheets(sheets@, frames@),
            frames_in_order(sheets@, frames@, sources),
            forall|k: int| 0 <= k < sources.len() ==> (#[trigger] sources[k]).0 < s,
        decreases sheets.len() - s,
    {
        let ghost before = frames@;
        assert forall|t: int, r: int, c: int|
            0 <= t < s && is_cell(&sheets@[t], r, c) implies #[trigger] cell_sound(
            &sheets@[t],
            r,
            c,
        ) by {
            assert(cell_done(&sheets@[t], r, c, frames@));
        }
        match scan_sheet(&sheets[s], s, &mut frames) {
            Err(e) => {
                proof {
                    let (row, col) = choose|row: int, col: int|
                        is_cell(&sheets@[s as int], row, col) && #[trigger] cell_failed(
                            &sheets@[s as int],
                            s as int,
                            row,
                            col,
                            e,
                        ) && sheet_sound_before(&sheets@[s as int], row, col);
                    assert(is_cell(&sheets@[s as int], row, col) && cell_failed(
                        &sheets@[s as int],
                        s as int,
                        row,
                        col,
                        e,
                    ));
                    assert(sheets_sound_before(sheets@, s as int, row, col));
                }
                return Err(e);
            },
            Ok(()) => {
                proof {
                    assert forall|i: int, row: int, col: int|
                        0 <= i < s + 1 && is_cell(&sheets@[i], row, col) implies #[trigger] cell_done(
                    &sheets@[i], row, col, frames@) by {
                        if i < s {
                            lemma_done_grows(&sheets@[i], row, col, before, frames@);
                        }
                    }
                    assert forall|k: int| 0 <= k < frames@.len() implies #[trigger] in_sheets(
                        sheets@,
                        frames@[k],
                    ) by {
                        if k < before.len() {
                            assert(frames@.subrange(0, before.len() as int)[k] == frames@[k]);
                            assert(in_sheets(sheets@, before[k]));
                        } else {
                            assert(in_sheet(&sheets@[s as int], frames@[k]));
                            let (row, col) = choose|row: int, col: int| #[trigger]
                                frame_of_cell(&sheets@[s as int], row, col, frames@[k]);
                            assert(frame_of_cell(&sheets@[s as int], row, col, frames@[k]));
                        }
                    }
                    let cells = choose|cells: Seq<(int, int)>| #[trigger]
                        sheet_order(&sheets@[s as int], frames@, before.len() as int, cells);
                    let old_sources = sources;
                    let added = Seq::new(cells.len(), |k: int| (s as int, cells[k].0, cells[k].1));
                    sources = old_sources + added;
                    assert forall|k: int| 0 <= k < sources.len() implies 0 <= (
                    #[trigger] sources[k]).0 < sheets@.len() && frame_of_cell(
                        &sheets@[sources[k].0],
                        sources[k].1,
                        sources[k].2,
                        frames@[k],
                    ) by {
                        if k < old_sources.len() {
                            assert(sources[k] == old_sources[k]);
                            assert(frames@.subrange(0, before.len() as int)[k] == frames@[k]);
                            assert(frame_of_cell(
                                &sheets@[old_sources[k].0],
                                old_sources[k].1,
                                old_sources[k].2,
                                before[k],
                            ));
                        } else {
                            let j = k - old_sources.len();
                            assert(sources[k] == added[j]);
                            assert(frame_of_cell(
                                &sheets@[s as int],
                                (#[trigger] cells[j]).0,
                                cells[j].1,
                                frames@[before.len() + j],
                            ));
                        }
                    }
                    assert forall|a: int, b: int| 0 <= a < b < sources.len() implies source_before(
                        sources[a],
                        sources[b],
                    ) by {
                        if b < old_sources.len() {
                            assert(source_before(old_sources[a], old_sources[b]));
                        } else if a < old_sources.len() {
                            assert(sources[a] == old_sources[a]);
                            assert(old_sources[a].0 < s);
                            assert(sources[b] == added[b - old_sources.len()]);
                        } else {
                            assert(sources[a] == added[a - old_sources.len()]);
                            assert(sources[b] == added[b - old_sources.len()]);
                            assert(cell_before(
                                cells[a - old_sources.len()],
                                cells[b - old_sources.len()],
                            ));
                        }
                    }
                    assert forall|k: int| 0 <= k < sources.len() implies (#[trigger] sources[k]).0
                        < s + 1 by {
                        if k < old_sources.len() {
                            assert(sources[k] == old_sources[k]);
                        } else {
                            assert(sources[k] == added[k - old_sources.len()]);
                        }
                    }
                    assert forall|k: int, t: int, r: int, c: int|
                        0 <= k < sources.len() && 0 <= t < sheets@.len() && is_cell(
                            &sheets@[t],
                            r,
                            c,
                        ) && source_before((t, r, c), sources[k]) implies #[trigger] cell_done(
                        &sheets@[t],
                        r,
                        c,
                        frames@.subrange(0, k),
                    ) by {
                        if k < old_sources.len() {
                            assert(sources[k] == old_sources[k]);
                            assert(frames@.subrange(0, k) =~= before.subrange(0, k)) by {
                                assert forall|i: int| 0 <= i < k implies frames@[i] == before[i] by {
                                    assert(frames@.subrange(0, before.len() as int)[i] == frames@[i]);
                                }
                            }
                        } else {
                            let j = k - old_sources.len();
                            assert(sources[k] == added[j]);
                            assert(k == before.len() + j);
                            if t < s {
                                let part = frames@.subrange(0, k);
                                assert(part.subrange(0, before.len() as int) =~= before) by {
                                    assert forall|i: int| 0 <= i < before.len() implies part[i]
                                        == before[i] by {
                                        assert(frames@.subrange(0, before.len() as int)[i]
                                            == frames@[i]);
                                    }
                                }
                                assert(cell_done(&sheets@[t], r, c, before));
                                lemma_done_grows(&sheets@[t], r, c, before, part);
                            } else {
                                assert(t == s && cell_before((r, c), cells[j]));
                            }
                        }
                    }
                }
            },
        }
        s += 1;
    }
    proof {
        assert(frames_in_order(sheets@, frames@, sources));
    }
    Ok(frames)
}

/// A frame that was kept is the first of its kind: no cell that is read
/// before the cell it comes from gives a duplicate of it.
pub proof fn lemma_kept_frame_is_first(
    sheets: Seq<AnimSheet>,
    frames: Seq<Frame>,
    cells: Seq<(int, int, int)>,
    k: int,
    t: int,
    row: int,
    col: int,
    f: Frame,
)
    requires
        all_distinct(frames),
        frames_in_order(sheets, frames, cells),
        0 <= k < frames.len(),
        0 <= t < sheets.len(),
        source_before((t, row, col), cells[k]),
        frame_of_cell(&sheets[t], row, col, f),
    ensures
        !duplicate(&f, &frames[k]),
{
    let s = &sheets[t];
    let part = frames.subrange(0, k);
    assert(cell_done(s, row, col, part));
    let im = s.images->0;
    let cell = sheet_cell(s, row, col);
    let out = choose|out: Option<Frame>| #[trigger]
        cell_yields(&im.0, &im.1, cell, out) && (out matches Some(g) ==> covered(part, &g));
    lemma_cell_yields_alike(&im.0, &im.1, cell, Some(f), out);
    let g = out->0;
    let j = choose|j: int| 0 <= j < part.len() && #[trigger] duplicate(&part[j], &g);
    assert(part[j] == frames[j]);
    if duplicate(&f, &frames[k]) {
        lemma_duplicate_symmetric(&f, &g);
        lemma_duplicate_transitive(&frames[j], &g, &f);
        lemma_duplicate_transitive(&frames[j], &f, &frames[k]);
        assert(false);
    }
}

/// The width that a frame asks of its tile: its own, or that of the rectangle
/// around its anchors when centred on the frame's middle, if that is wider.
pub open spec fn extent_x(f: &Frame) -> int {
    let cb = f.offsets.centered_bounds(f.image.width as int / 2, f.image.height as int / 2);
    max_int(f.image.width as int, cb.2 - cb.0)
}

/// The height that a frame asks of its tile.
pub open spec fn extent_y(f: &Frame) -> int {
    let cb = f.offsets.centered_bounds(f.image.width as int / 2, f.image.height as int / 2);
    max_int(f.image.height as int, cb.3 - cb.1)
}

/// The largest width that any of the frames asks for; 0 without frames.
pub open spec fn max_extent_x(frames: Seq<Frame>) -> int
    decreases frames.len(),
{
    if frames.len() == 0 {
        0
    } else {
        max_int(max_extent_x(frames.drop_last()), extent_x(&frames.last()))
    }
}

/// The largest height that any of the frames asks for; 0 without frames.
pub open spec fn max_extent_y(frames: Seq<Frame>) -> int
    decreases frames.len(),
{
    if frames.len() == 0 {
        0
    } else {
        max_int(max_extent_y(frames.drop_last()), extent_y(&frames.last()))
    }
}

/// The size of the tiles: the largest extents, each rounded up to an even
/// number.
pub fn get_sprite_frame_size_from_frames(frames: &Vec<Frame>) -> (r: (u32, u32))
    requires
        frames_wf(frames@),
    ensures
        r.0 == rounded_up(max_extent_x(frames@), 2),
        r.1 == rounded_up(max_extent_y(frames@), 2),
        r.0 % 2 == 0,
        r.1 % 2 == 0,
        forall|k: int|
            0 <= k < frames@.len() ==> (#[trigger] frames@[k]).image.width <= r.0
                && frames@[k].image.height <= r.1,
{
    let mut max_width: u32 = 0;
    let mut max_height: u32 = 0;
    let mut n: usize = 0;
    while n < frames.len()
        invariant
            n <= frames.len(),
            frames_wf(frames@),
            max_width == max_extent_x(frames@.subrange(0, n as int)),
            max_height == max_extent_y(frames@.subrange(0, n as int)),
            max_width <= 0x4000_0000,
            max_height <= 0x4000_0000,
            forall|k: int|
                0 <= k < n ==> (#[trigger] frames@[k]).image.width <= max_width
                    && frames@[k].image.height <= max_height,
        decreases frames.len() - n,
    {
        let f = &frames[n];
        proof {
            let next = frames@.subrange(0, n as int + 1);
            assert(next.drop_last() =~= frames@.subrange(0, n as int));
            assert(next.last() == frames@[n as int]);
        }
        if f.image.width > max_width {
            max_width = f.image.width;
        }
        if f.image.height > max_height {
            max_height = f.image.height;
        }
        let cb = f.offsets.get_centered_bounds(
            ((f.image.width / 2) as i32, (f.image.height / 2) as i32),
        );
        let w: u32 = (cb.2 - cb.0) as u32;
        let h: u32 = (cb.3 - cb.1) as u32;
        if w > max_width {
            max_width = w;
        }
        if h > max_height {
            max_height = h;
        }
        n += 1;
    }
    assert(frames@.subrange(0, frames@.len() as int) =~= frames@);
    (round_up_to_mult(max_width, 2), round_up_to_mult(max_height, 2))
}

/// `s` is the side of the smallest square grid with room for `n` tiles.
pub open spec fn is_side(n: int, s: int) -> bool {
    0 <= s && s * s >= n && (s == 0 || (s - 1) * (s - 1) < n)
}

/// The side of the smallest square grid with room for `n` tiles.
pub fn grid_side(n: usize) -> (s: u64)
    ensures
        is_side(n as int, s as int),
        s <= 0x1_0000_0000,
{
    let mut s: u64 = 0;
    let mut square: u128 = 0;
    while square < n as u128
        invariant
            s <= 0x1_0000_0000,
            square == s * s,
            s == 0 || (s - 1) * (s - 1) < n,
        decreases 0x1_0000_0001 - s,
    {
        proof {
            if s == 0x1_0000_0000 {
                assert(s * s == 0x1_0000_0000_0000_0000) by (nonlinear_arith)
                    requires
                        s == 0x1_0000_0000,
                ;
            }
            assert((s + 1) * (s + 1) <= 0x1_0000_0000 * 0x1_0000_0000) by (nonlinear_arith)
                requires
                    0 <= s < 0x1_0000_0000,
            ;
        }
        s += 1;
        square = (s as u128) * (s as u128);
    }
    s
}

/// The left edge of tile `k` in a grid of `side` columns.
pub open spec fn tile_x(k: int, side: int, fx: int) -> int {
    (k % side) * fx
}

/// The top edge of tile `k` in a grid of `side` columns.
pub open spec fn tile_y(k: int, side: int, fy: int) -> int {
    (k / side) * fy
}

/// The left edge of frame `k` in the atlas: its tile's edge and half of what
/// the tile has more than the frame.
pub open spec fn frame_x(frames: Seq<Frame>, k: int, side: int, fx: int) -> int {
    tile_x(k, side, fx) + (fx - frames[k].image.width) / 2
}

/// The top edge of frame `k` in the atlas.
pub open spec fn frame_y(frames: Seq<Frame>, k: int, side: int, fy: int) -> int {
    tile_y(k, side, fy) + (fy - frames[k].image.height) / 2
}

/// `(x, y)` is a pixel of frame `k` in the atlas.
pub open spec fn in_frame_rect(
    frames: Seq<Frame>,
    k: int,
    side: int,
    fx: int,
    fy: int,
    x: int,
    y: int,
) -> bool {
    &&& frame_x(frames, k, side, fx) <= x < frame_x(frames, k, side, fx) + frames[k].image.width
    &&& frame_y(frames, k, side, fy) <= y < frame_y(frames, k, side, fy) + frames[k].image.height
}

/// No frame among the first `n` covers `(x, y)`.
pub open spec fn outside_frames(
    frames: Seq<Frame>,
    n: int,
    side: int,
    fx: int,
    fy: int,
    x: int,
    y: int,
) -> bool {
    forall|k: int| 0 <= k < n ==> !#[trigger] in_frame_rect(frames, k, side, fx, fy, x, y)
}

/// The atlas holds the first `n` frames, each centred in its tile, and is
/// blank everywhere else.
pub open spec fn placed(atlas: &Bitmap, frames: Seq<Frame>, n: int, side: int, fx: int, fy: int) -> bool {
    &&& forall|k: int, i: int, j: int|
        0 <= k < n && frames[k].image.holds(i, j) ==> atlas.px(
            frame_x(frames, k, side, fx) + i,
            frame_y(frames, k, side, fy) + j,
        ) == #[trigger] frames[k].image.px(i, j)
    &&& forall|x: int, y: int|
        atlas.holds(x, y) && outside_frames(frames, n, side, fx, fy, x, y) ==> #[trigger] atlas.px(
            x,
            y,
        ) == blank()
}

/// A point lies in at most one column of tiles.
proof fn lemma_same_tile(a: int, b: int, f: int, x: int)
    requires
        f > 0,
        a * f <= x < a * f + f,
        b * f <= x < b * f + f,
    ensures
        a == b,
{
    if a < b {
        assert((a + 1) * f <= b * f) by (nonlinear_arith)
            requires
                a + 1 <= b,
                f > 0,
        ;
        assert((a + 1) * f == a * f + f) by (nonlinear_arith);
    } else if b < a {
        assert((b + 1) * f <= a * f) by (nonlinear_arith)
            requires
                b + 1 <= a,
                f > 0,
        ;
        assert((b + 1) * f == b * f + f) by (nonlinear_arith);
    }
}

/// The frames of two different tiles share no pixel.
proof fn lemma_frames_apart(
    frames: Seq<Frame>,
    k: int,
    n: int,
    side: int,
    fx: int,
    fy: int,
    x: int,
    y: int,
)
    requires
        0 <= k < frames.len(),
        0 <= n < frames.len(),
        k != n,
        side > 0,
        fx > 0,
        fy > 0,
        frames[k].image.width <= fx && frames[k].image.height <= fy,
        frames[n].image.width <= fx && frames[n].image.height <= fy,
        in_frame_rect(frames, k, side, fx, fy, x, y),
    ensures
        !in_frame_rect(frames, n, side, fx, fy, x, y),
{
    if in_frame_rect(frames, n, side, fx, fy, x, y) {
        lemma_same_tile(k % side, n % side, fx, x);
        lemma_same_tile(k / side, n / side, fy, y);
        vstd::arithmetic::div_mod::lemma_fundamental_div_mod(k, side);
        vstd::arithmetic::div_mod::lemma_fundamental_div_mod(n, side);
    }
}

/// Tile `n` of a grid with room for it lies inside the grid.
proof fn lemma_tile_in_grid(n: int, side: int, fx: int, fy: int)
    requires
        0 <= n < side * side,
        side > 0,
        fx >= 0,
        fy >= 0,
    ensures
        0 <= n % side < side,
        0 <= n / side < side,
        0 <= tile_x(n, side, fx),
        0 <= tile_y(n, side, fy),
        tile_x(n, side, fx) + fx <= side * fx,
        tile_y(n, side, fy) + fy <= side * fy,
{
    vstd::arithmetic::div_mod::lemma_fundamental_div_mod(n, side);
    vstd::arithmetic::div_mod::lemma_mod_pos_bound(n, side);
    vstd::arithmetic::div_mod::lemma_div_pos_is_pos(n, side);
    let q = n / side;
    let r = n % side;
    if q >= side {
        assert(side * q >= side * side) by (nonlinear_arith)
            requires
                q >= side,
                side > 0,
        ;
    }
    assert((r + 1) * fx <= side * fx) by (nonlinear_arith)
        requires
            r + 1 <= side,
            fx >= 0,
    ;
    assert((r + 1) * fx == r * fx + fx) by (nonlinear_arith);
    assert((q + 1) * fy <= side * fy) by (nonlinear_arith)
        requires
            q + 1 <= side,
            fy >= 0,
    ;
    assert((q + 1) * fy == q * fy + fy) by (nonlinear_arith);
    assert(0 <= r * fx) by (nonlinear_arith)
        requires
            r >= 0,
            fx >= 0,
    ;
    assert(0 <= q * fy) by (nonlinear_arith)
        requires
            q >= 0,
            fy >= 0,
    ;
}

/// What [`compose_atlas`] asks of the frames and the grid.
pub open spec fn atlas_input(frames: Seq<Frame>, side: int, fx: int, fy: int) -> bool {
    &&& frames_wf(frames)
    &&& side * side >= frames.len()
    &&& 0 <= side <= 0x1_0000_0000
    &&& forall|k: int|
        0 <= k < frames.len() ==> (#[trigger] frames[k]).image.width <= fx
            && frames[k].image.height <= fy
}

/// Whether an atlas of `side` by `side` tiles is larger than an image can be.
pub open spec fn atlas_too_large(side: int, fx: int, fy: int) -> bool {
    side * fx > MAX_SIDE || side * fy > MAX_SIDE || (side * fx) * (side * fy) > usize::MAX
}

/// Packs the frames into a grid of `side` by `side` tiles, each `fx` by `fy`
/// large: frame `k` goes to column `k % side` of row `k / side` and is
/// centred in its tile.
pub fn compose_atlas(frames: &Vec<Frame>, side: u64, fx: u32, fy: u32) -> (r: Result<
    Bitmap,
    SheetError,
>)
    requires
        atlas_input(frames@, side as int, fx as int, fy as int),
    ensures
        match r {
            Ok(atlas) => !atlas_too_large(side as int, fx as int, fy as int) && atlas.wf()
                && atlas.width == side * fx && atlas.height == side * fy && placed(
                &atlas,
                frames@,
                frames@.len() as int,
                side as int,
                fx as int,
                fy as int,
            ),
            Err(e) => e == SheetError::TooLarge && atlas_too_large(
                side as int,
                fx as int,
                fy as int,
            ),
        },
{
    proof {
        assert(side * fx <= 0x1_0000_0000 * 0x1_0000_0000) by (nonlinear_arith)
            requires
                0 <= side <= 0x1_0000_0000,
                0 <= fx <= 0x1_0000_0000,
        ;
        assert(side * fy <= 0x1_0000_0000 * 0x1_0000_0000) by (nonlinear_arith)
            requires
                0 <= side <= 0x1_0000_0000,
                0 <= fy <= 0x1_0000_0000,
        ;
    }
    let width: u128 = (side as u128) * (fx as u128);
    let height: u128 = (side as u128) * (fy as u128);
    if width > MAX_SIDE as u128 || height > MAX_SIDE as u128 {
        return Err(SheetError::TooLarge);
    }
    let mut atlas = match Bitmap::new(width as u32, height as u32) {
        Some(a) => a,
        None => {
            return Err(SheetError::TooLarge);
        },
    };
    proof {
        reveal(Bitmap::px);
        assert forall|x: int, y: int| atlas.holds(x, y) implies #[trigger] atlas.px(x, y)
            == blank() by {
            crate::bitmap::lemma_cell_index(x, y, atlas.width as int, atlas.height as int);
        }
    }
    let mut n: usize = 0;
    while n < frames.len()
        invariant
            n <= frames.len(),
            atlas_input(frames@, side as int, fx as int, fy as int),
            atlas.wf(),
            atlas.width == side * fx,
            atlas.height == side * fy,
            placed(&atlas, frames@, n as int, side as int, fx as int, fy as int),
        decreases frames.len() - n,
    {
        let f = &frames[n];
        proof {
            assert(side > 0) by {
                if side == 0 {
                    assert(side * side == 0) by (nonlinear_arith)
                        requires
                            side == 0,
                    ;
                }
            }
            lemma_tile_in_grid(n as int, side as int, fx as int, fy as int);
        }
        let col: u64 = (n as u64) % side;
        let row: u64 = (n as u64) / side;
        proof {
            assert(col * fx <= side * fx) by (nonlinear_arith)
                requires
                    0 <= col <= side,
                    fx >= 0,
            ;
            assert(row * fy <= side * fy) by (nonlinear_arith)
                requires
                    0 <= row <= side,
                    fy >= 0,
            ;
        }
        let x: u64 = col * (fx as u64) + ((fx - f.image.width) / 2) as u64;
        let y: u64 = row * (fy as u64) + ((fy - f.image.height) / 2) as u64;
        let ghost before = atlas;
        let done = atlas.copy_from(&f.image, x as u32, y as u32);
        assert(done);
        proof {
            let fs = frames@;
            let sd = side as int;
            let fxi = fx as int;
            let fyi = fy as int;
            assert(x == frame_x(fs, n as int, sd, fxi));
            assert(y == frame_y(fs, n as int, sd, fyi));
            assert forall|k: int, i: int, j: int|
                0 <= k < n + 1 && fs[k].image.holds(i, j) implies atlas.px(
                frame_x(fs, k, sd, fxi) + i,
                frame_y(fs, k, sd, fyi) + j,
            ) == #[trigger] fs[k].image.px(i, j) by {
                let ax = frame_x(fs, k, sd, fxi) + i;
                let ay = frame_y(fs, k, sd, fyi) + j;
                lemma_tile_in_grid(k, sd, fxi, fyi);
                assert(atlas.holds(ax, ay));
                if k < n {
                    assert(in_frame_rect(fs, k, sd, fxi, fyi, ax, ay));
                    lemma_frames_apart(fs, k, n as int, sd, fxi, fyi, ax, ay);
                    assert(atlas.px(ax, ay) == before.px(ax, ay));
                } else {
                    assert(atlas.px(ax, ay) == f.image.px(ax - x, ay - y));
                }
            }
            assert forall|px: int, py: int|
                atlas.holds(px, py) && outside_frames(
                    fs,
                    n as int + 1,
                    sd,
                    fxi,
                    fyi,
                    px,
                    py,
                ) implies #[trigger] atlas.px(px, py) == blank() by {
                assert(!in_frame_rect(fs, n as int, sd, fxi, fyi, px, py));
                assert(atlas.px(px, py) == before.px(px, py));
                assert(outside_frames(fs, n as int, sd, fxi, fyi, px, py));
            }
        }
        n += 1;
    }
    Ok(atlas)
}

/// The pixels of an image after its palette was written into the first row.
pub open spec fn with_palette(pixels: Seq<Pixel>) -> Seq<Pixel> {
    Seq::new(
        pixels.len(),
        |i: int|
            if i < palette_of(pixels).len() {
                palette_of(pixels)[i]
            } else {
                pixels[i]
            },
    )
}

/// `r` is what encoding the atlas gives: its palette goes into the first row
/// and the image is written as PNG.
pub open spec fn encoded_as(atlas: Bitmap, r: Result<Seq<u8>, SheetError>) -> bool {
    if palette_of(atlas.pixels@).len() > atlas.width {
        r == Err::<Seq<u8>, SheetError>(SheetError::PaletteTooWide)
    } else {
        match png_encoded(atlas.width, atlas.height, rgba_of(with_palette(atlas.pixels@))) {
            Some(b) => r == Ok::<Seq<u8>, SheetError>(b),
            None => r == Err::<Seq<u8>, SheetError>(SheetError::Encode),
        }
    }
}

/// `atlas` is the atlas of the frames in a grid of `side` by `side` tiles.
pub open spec fn is_atlas(frames: Seq<Frame>, side: int, atlas: Bitmap) -> bool {
    let fx = rounded_up(max_extent_x(frames), 2);
    let fy = rounded_up(max_extent_y(frames), 2);
    atlas.wf() && atlas.width == side * fx && atlas.height == side * fy && placed(
        &atlas,
        frames,
        frames.len() as int,
        side,
        fx,
        fy,
    )
}

/// `r` is the recolor sheet of the frames: the atlas in the smallest square
/// grid with room for them, with its palette, as PNG; or the reason why it
/// cannot be had.
pub open spec fn sheet_result(frames: Seq<Frame>, r: Result<Seq<u8>, SheetError>) -> bool {
    let fx = rounded_up(max_extent_x(frames), 2);
    let fy = rounded_up(max_extent_y(frames), 2);
    exists|side: int|
        #[trigger] is_side(frames.len() as int, side) && if atlas_too_large(side, fx, fy) {
            r == Err::<Seq<u8>, SheetError>(SheetError::TooLarge)
        } else {
            exists|atlas: Bitmap| is_atlas(frames, side, atlas) && #[trigger] encoded_as(atlas, r)
        }
}

/// The bytes of a result as a sequence.
pub open spec fn bytes_view(r: Result<Vec<u8>, SheetError>) -> Result<Seq<u8>, SheetError> {
    match r {
        Ok(b) => Ok(b@),
        Err(e) => Err(e),
    }
}

/// Builds the recolor sheet of a list of frames.
pub fn build_recolor_sheet(frames: &Vec<Frame>) -> (r: Result<Vec<u8>, SheetError>)
    requires
        frames_wf(frames@),
    ensures
        sheet_result(frames@, bytes_view(r)),
{
    let (frame_size_x, frame_size_y) = get_sprite_frame_size_from_frames(frames);
    let max_size = grid_side(frames.len());
    let mut combined_img = match compose_atlas(frames, max_size, frame_size_x, frame_size_y) {
        Ok(a) => a,
        Err(e) => {
            proof {
                assert(is_side(frames@.len() as int, max_size as int) && atlas_too_large(
                    max_size as int,
                    frame_size_x as int,
                    frame_size_y as int,
                ));
            }
            return Err(e);
        },
    };
    let ghost atlas = combined_img;
    let r = match add_palette_to(&mut combined_img) {
        Err(e) => Err(e),
        Ok(()) => {
            assert(combined_img.pixels@ =~= with_palette(atlas.pixels@));
            to_png(&combined_img)
        },
    };
    proof {
        assert(is_atlas(frames@, max_size as int, atlas));
        assert(encoded_as(atlas, bytes_view(r)));
        assert(is_side(frames@.len() as int, max_size as int));
    }
    r
}

/// `frames` is what [`get_sprite_frames`] collects from the sheets.
pub open spec fn collected(sheets: Seq<AnimSheet>, frames: Seq<Frame>) -> bool {
    &&& frames_wf(frames)
    &&& all_distinct(frames)
    &&& all_cells_done(sheets, frames)
    &&& all_from_sheets(sheets, frames)
    &&& exists|cells: Seq<(int, int, int)>| #[trigger] frames_in_order(sheets, frames, cells)
}

/// `r` is the recolor sheet of some list of frames collected from the sheets.
pub open spec fn sheet_of(sheets: Seq<AnimSheet>, r: Result<Seq<u8>, SheetError>) -> bool {
    exists|frames: Seq<Frame>| collected(sheets, frames) && #[trigger] sheet_result(frames, r)
}

/// Builds the sprite recolor sheet of a form from the images of its
/// animations. The result is always to be cached.
pub fn make_sprite_recolor_sheet(sheets: &Vec<AnimSheet>) -> (r: Result<
    CacheBehaviour<Vec<u8>>,
    SheetError,
>)
    requires
        sheets_wf(sheets@),
    ensures
        match r {
            Ok(CacheBehaviour::Cache(b)) => sheet_of(sheets@, Ok(b@)),
            Ok(CacheBehaviour::NoCache(_)) => false,
            Err(e) => some_cell_failed(sheets@, e) || sheet_of(sheets@, Err(e)),
        },
{
    let frames = match get_sprite_frames(sheets) {
        Ok(f) => f,
        Err(e) => {
            return Err(e);
        },
    };
    match build_recolor_sheet(&frames) {
        Ok(b) => {
            assert(sheet_result(frames@, Ok(b@)));
            Ok(CacheBehaviour::Cache(b))
        },
        Err(e) => {
            assert(sheet_result(frames@, Err(e)));
            Err(e)
        },
    }
}

/// An animation with frames of its own, and the size of its frame cells.
#[derive(Clone, Debug)]
pub struct AnimDim {
    pub name: String,
    pub frame_width: i32,
    pub frame_height: i32,
}

/// The frame size of an animation, where it has both numbers and each lies
/// between 1 and the largest image side.
pub open spec fn usable_dims(a: &Anim) -> Option<(i32, i32)> {
    match (a.frame_width, a.frame_height) {
        (Some(w), Some(h)) => if 1 <= w <= MAX_SIDE && 1 <= h <= MAX_SIDE {
            Some((w as i32, h as i32))
        } else {
            None
        },
        _ => None,
    }
}

/// The animations with frames of their own among `anims`, each name once at
/// the place where it first occurred, with the frame size given last; or the
/// name of the first such animation without a usable frame size.
pub open spec fn dims_of(anims: Seq<Anim>) -> Result<Seq<(Seq<char>, (i32, i32))>, Seq<char>>
    decreases anims.len(),
{
    if anims.len() == 0 {
        Ok(Seq::empty())
    } else {
        match dims_of(anims.drop_last()) {
            Err(n) => Err(n),
            Ok(s) => {
                let a = anims.last();
                if a.copy_of is Some {
                    Ok(s)
                } else {
                    match usable_dims(&a) {
                        Some(d) => Ok(upserted(s, a.name@, d)),
                        None => Err(a.name@),
                    }
                }
            },
        }
    }
}

/// The names and sizes of a list of [`AnimDim`].
pub open spec fn dim_pairs(dims: Seq<AnimDim>) -> Seq<(Seq<char>, (i32, i32))> {
    Seq::new(dims.len(), |i: int| (dims[i].name@, (dims[i].frame_width, dims[i].frame_height)))
}

/// Lists the animations whose sheets are to be read, with their frame sizes.
/// An animation without `copy_of` must have a frame width and a frame height.
pub fn collect_anim_dims(xml: &AnimDataXml) -> (r: Result<Vec<AnimDim>, SheetError>)
    ensures
        match r {
            Ok(dims) => dims_of(xml.anims.anim@) == Ok::<_, Seq<char>>(dim_pairs(dims@)),
            Err(e) => e matches SheetError::InvalidAnim(name) && dims_of(xml.anims.anim@) == Err::<
                Seq<(Seq<char>, (i32, i32))>,
                _,
            >(name@),
        },
{
    let mut anim_dims = dims_new();
    let anims = &xml.anims.anim;
    let mut i: usize = 0;
    while i < anims.len()
        invariant
            i <= anims.len(),
            anims@ == xml.anims.anim@,
            dims_of(anims@.subrange(0, i as int)) == Ok::<_, Seq<char>>(dim_entries(anim_dims)),
        decreases anims.len() - i,
    {
        let anim_node = &anims[i];
        proof {
            let next = anims@.subrange(0, i as int + 1);
            assert(next.drop_last() =~= anims@.subrange(0, i as int));
            assert(next.last() == *anim_node);
        }
        if anim_node.copy_of.is_none() {
            let dims: Option<(i32, i32)> = match (anim_node.frame_width, anim_node.frame_height) {
                (Some(w), Some(h)) => if 1 <= w && w <= MAX_SIDE as i64 && 1 <= h && h
                    <= MAX_SIDE as i64 {
                    Some((w as i32, h as i32))
                } else {
                    None
                },
                _ => None,
            };
            match dims {
                Some(d) => {
                    dims_insert(&mut anim_dims, anim_node.name.clone(), d);
                },
                None => {
                    let name = anim_node.name.clone();
                    proof {
                        assert(usable_dims(anim_node) is None);
                        assert(dims_of(anims@.subrange(0, i as int + 1)) == Err::<
                            Seq<(Seq<char>, (i32, i32))>,
                            _,
                        >(name@));
                        lemma_dims_error_stays(anims@, i as int + 1);
                    }
                    return Err(SheetError::InvalidAnim(name));
                },
            }
        }
        i += 1;
    }
    assert(anims@.subrange(0, anims.len() as int) =~= anims@);
    let n = dims_len(&anim_dims);
    let mut out: Vec<AnimDim> = Vec::new();
    let mut k: usize = 0;
    while k < n
        invariant
            k <= n,
            n == dim_entries(anim_dims).len(),
            out@.len() == k,
            forall|j: int| 0 <= j < k ==> #[trigger] dim_pairs(out@)[j] == dim_entries(anim_dims)[j],
        decreases n - k,
    {
        let (name, d) = dims_get_index(&anim_dims, k);
        let ghost before = out@;
        out.push(AnimDim { name, frame_width: d.0, frame_height: d.1 });
        proof {
            assert forall|j: int| 0 <= j < k + 1 implies #[trigger] dim_pairs(out@)[j]
                == dim_entries(anim_dims)[j] by {
                if j < k {
                    assert(out@[j] == before[j]);
                    assert(dim_pairs(before)[j] == dim_entries(anim_dims)[j]);
                }
            }
        }
        k += 1;
    }
    assert(dim_pairs(out@) =~= dim_entries(anim_dims));
    Ok(out)
}

/// Every frame size in the list of the animations is usable: each side lies
/// between 1 and the largest image side.
pub proof fn lemma_dims_in_range(anims: Seq<Anim>)
    requires
        dims_of(anims) is Ok,
    ensures
        forall|i: int|
            0 <= i < dims_of(anims)->Ok_0.len() ==> 1 <= (#[trigger] dims_of(anims)->Ok_0[i]).1.0
                <= MAX_SIDE && 1 <= dims_of(anims)->Ok_0[i].1.1 <= MAX_SIDE,
    decreases anims.len(),
{
    if anims.len() > 0 {
        let front = anims.drop_last();
        lemma_dims_in_range(front);
        let s = dims_of(front)->Ok_0;
        let now = dims_of(anims)->Ok_0;
        let a = anims.last();
        if a.copy_of is None {
            let d = usable_dims(&a)->0;
            assert(now == upserted(s, a.name@, d));
            crate::ordered::lemma_key_index(s, a.name@);
            assert forall|i: int| 0 <= i < now.len() implies 1 <= (#[trigger] now[i]).1.0 <= MAX_SIDE
                && 1 <= now[i].1.1 <= MAX_SIDE by {
                if i < s.len() && now[i] == s[i] {
                    assert(1 <= s[i].1.0 <= MAX_SIDE);
                }
            }
        }
    }
}

/// The two images of an animation among the files of a form's directory:
/// `<name>-Anim.png` and `<name>-Offsets.png`, where both are there and can
/// be decoded.
pub open spec fn sheet_images(files: Seq<(String, Vec<u8>)>, name: Seq<char>) -> Option<
    ((u32, u32, Seq<Pixel>), (u32, u32, Seq<Pixel>)),
> {
    match (file_image(files, name + "-Anim.png"@), file_image(files, name + "-Offsets.png"@)) {
        (Some(a), Some(o)) => Some((a, o)),
        _ => None,
    }
}

/// `s` is the sheet of the animation `d`, a name with a frame size, read
/// from the files.
pub open spec fn is_sheet_of(files: Seq<(String, Vec<u8>)>, d: (Seq<char>, (i32, i32)), s: AnimSheet) -> bool {
    &&& s.frame_width == d.1.0
    &&& s.frame_height == d.1.1
    &&& match (s.images, sheet_images(files, d.0)) {
        (Some(im), Some(m)) => (im.0.width, im.0.height, im.0.pixels@) == m.0 && (
            im.1.width,
            im.1.height,
            im.1.pixels@,
        ) == m.1,
        (None, None) => true,
        _ => false,
    }
}

/// `r` is what reading the sheets of a form gives: one sheet for every
/// animation with frames of its own, in the order of the animation data; or
/// the error that names the first such animation without a usable frame
/// size.
pub open spec fn sheets_loaded(
    anims: Seq<Anim>,
    files: Seq<(String, Vec<u8>)>,
    r: Result<Vec<AnimSheet>, SheetError>,
) -> bool {
    match dims_of(anims) {
        Err(n) => r matches Err(SheetError::InvalidAnim(t)) && t@ == n,
        Ok(dims) => r matches Ok(sheets) && sheets_wf(sheets@) && sheets@.len() == dims.len()
            && forall|i: int| 0 <= i < dims.len() ==> is_sheet_of(files, dims[i], #[trigger] sheets@[i]),
    }
}

fn read_image(files: &Vec<(String, Vec<u8>)>, name: &str, ending: &str) -> (r: Option<Bitmap>)
    ensures
        match r {
            Some(img) => img.wf() && file_image(files@, name@ + ending@) == Some(
                (img.width, img.height, img.pixels@),
            ),
            None => file_image(files@, name@ + ending@) is None,
        },
{
    let mut file_name = chars_of(name);
    append_str(&mut file_name, ending);
    let file_name = string_of(&file_name);
    match find_file(files, file_name.as_str()) {
        Some(bytes) => decode_image(bytes.as_slice()),
        None => None,
    }
}

/// Reads the sheets of a form's animations from its animation data and the
/// files of its directory, each given by its name and its bytes. An
/// animation whose two images are not both there is kept without images.
pub fn load_sheets(xml: &AnimDataXml, files: &Vec<(String, Vec<u8>)>) -> (r: Result<
    Vec<AnimSheet>,
    SheetError,
>)
    ensures
        sheets_loaded(xml.anims.anim@, files@, r),
{
    let dims = match collect_anim_dims(xml) {
        Ok(d) => d,
        Err(e) => {
            return Err(e);
        },
    };
    let ghost want = dim_pairs(dims@);
    proof {
        lemma_dims_in_range(xml.anims.anim@);
        assert(dims_of(xml.anims.anim@)->Ok_0 == want);
    }
    let mut sheets: Vec<AnimSheet> = Vec::new();
    let mut i: usize = 0;
    while i < dims.len()
        invariant
            i <= dims.len(),
            want == dim_pairs(dims@),
            dims_of(xml.anims.anim@) == Ok::<_, Seq<char>>(want),
            forall|k: int|
                0 <= k < want.len() ==> 1 <= (#[trigger] want[k]).1.0 <= MAX_SIDE && 1 <= want[k].1.1
                    <= MAX_SIDE,
            sheets@.len() == i,
            sheets_wf(sheets@),
            forall|k: int| 0 <= k < i ==> is_sheet_of(files@, want[k], #[trigger] sheets@[k]),
        decreases dims.len() - i,
    {
        let dim = &dims[i];
        assert(want[i as int] == (dim.name@, (dim.frame_width, dim.frame_height)));
        let anim = read_image(files, dim.name.as_str(), "-Anim.png");
        let offsets = read_image(files, dim.name.as_str(), "-Offsets.png");
        let images = match (anim, offsets) {
            (Some(a), Some(o)) => Some((a, o)),
            _ => None,
        };
        let ghost before = sheets@;
        sheets.push(AnimSheet { frame_width: dim.frame_width, frame_height: dim.frame_height, images });
        proof {
            assert forall|k: int| 0 <= k < sheets@.len() implies (#[trigger] sheets@[k]).wf() by {
                if k < i {
                    assert(sheets@[k] == before[k]);
                }
            }
            assert forall|k: int| 0 <= k < i + 1 implies is_sheet_of(
                files@,
                want[k],
                #[trigger] sheets@[k],
            ) by {
                if k < i {
                    assert(sheets@[k] == before[k]);
                }
            }
        }
        i += 1;
    }
    Ok(sheets)
}

/// Once a beginning of the animations has no usable list, no longer
/// beginning has one, and the name at fault stays the same.
pub proof fn lemma_dims_error_stays(anims: Seq<Anim>, n: int)
    requires
        0 <= n <= anims.len(),
        dims_of(anims.subrange(0, n)) is Err,
    ensures
        dims_of(anims) == dims_of(anims.subrange(0, n)),
    decreases anims.len() - n,
{
    if n < anims.len() {
        let next = anims.subrange(0, n + 1);
        assert(next.drop_last() =~= anims.subrange(0, n));
        lemma_dims_error_stays(anims, n + 1);
    } else {
        assert(anims.subrange(0, n) =~= anims);
    }
}

} // verus!
