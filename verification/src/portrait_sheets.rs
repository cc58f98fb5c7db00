//! The portrait sheet of a form: the portraits of its emotions in a grid,
//! each at the place that the configuration gives its emotion.

use vstd::prelude::*;
use indexmap::IndexMap;
use crate::bitmap::{Bitmap, MAX_SIDE, Pixel, blank};
use crate::cache::CacheBehaviour;
use crate::error::SheetError;
use crate::img_util::{add_palette_to, decode_image, decoded_bitmap, png_encoded, rgba_of, to_png};
use crate::ordered::{file_entries, key_index, lemma_key_index, upserted};
use crate::sorting::file_names;
use crate::sprite_sheets::{bytes_view, encoded_as, with_palette};
use crate::text::same_text;
use crate::tracker::Group;

verus! {

/// Maps known emotions from the sprite config to positions in the sheets.
/// All positions, widths and heights here use the portraits as units, so they
/// must be multiplied by the dimensions of a portrait for the actual
/// coordinates / sizes.
#[derive(Clone, Debug)]
pub struct PortraitSheetEmotions {
    pub emotion_positions: Vec<(String, (i32, i32))>,
    pub max_width: i32,
    pub max_height: i32,
}

/// The positions of a list of emotions as plain values.
pub open spec fn position_texts(v: Seq<(String, (i32, i32))>) -> Seq<(Seq<char>, (i32, i32))> {
    Seq::new(v.len(), |i: int| (v[i].0@, v[i].1))
}

/// The positions of the first `n` emotions in a sheet that is `width`
/// portraits wide: emotion `i` stands in column `i % width` of row
/// `i / width`. An emotion that is listed twice has its last position.
pub open spec fn positions_of(emotions: Seq<Seq<char>>, width: int, n: int) -> Seq<
    (Seq<char>, (i32, i32)),
>
    decreases n,
{
    if n <= 0 || n > emotions.len() {
        Seq::empty()
    } else {
        upserted(
            positions_of(emotions, width, n - 1),
            emotions[n - 1],
            (((n - 1) % width) as i32, ((n - 1) / width) as i32),
        )
    }
}

/// The number of columns that `n` emotions take.
pub open spec fn columns_used(n: int, width: int) -> int {
    if n < width {
        n
    } else {
        width
    }
}

/// The number of rows that `n` emotions take.
pub open spec fn rows_used(n: int, width: int) -> int {
    (n + width - 1) / width
}

/// The texts of a list of strings.
pub open spec fn emotion_texts(v: Seq<String>) -> Seq<Seq<char>> {
    Seq::new(v.len(), |i: int| v[i]@)
}

fn find_position(positions: &Vec<(String, (i32, i32))>, name: &str) -> (r: Option<usize>)
    ensures
        match r {
            Some(i) => key_index(position_texts(positions@), name@) == Some(i as int) && i
                < positions.len(),
            None => key_index(position_texts(positions@), name@) is None,
        },
{
    let mut i: usize = 0;
    proof {
        lemma_key_index(position_texts(positions@), name@);
    }
    while i < positions.len()
        invariant
            i <= positions.len(),
            forall|j: int| 0 <= j < i ==> position_texts(positions@)[j].0 != name@,
        decreases positions.len() - i,
    {
        if same_text(positions[i].0.as_str(), name) {
            proof {
                lemma_key_index(position_texts(positions@), name@);
                assert(position_texts(positions@)[i as int].0 == name@);
            }
            return Some(i);
        }
        i += 1;
    }
    proof {
        lemma_key_index(position_texts(positions@), name@);
    }
    None
}

impl PortraitSheetEmotions {
    /// The position of an emotion, if the configuration lists it.
    pub open spec fn position(&self, name: Seq<char>) -> Option<(i32, i32)> {
        match key_index(position_texts(self.emotion_positions@), name) {
            Some(i) => Some(self.emotion_positions@[i].1),
            None => None,
        }
    }

    /// Lays the emotions of the configuration out in a sheet that is
    /// `width_sheet` portraits wide.
    pub fn new(emotion_cfg: Vec<String>, width_sheet: i32) -> (r: PortraitSheetEmotions)
        requires
            width_sheet > 0,
            emotion_cfg@.len() <= i32::MAX,
        ensures
            position_texts(r.emotion_positions@) == positions_of(
                emotion_texts(emotion_cfg@),
                width_sheet as int,
                emotion_cfg@.len() as int,
            ),
            r.max_width == columns_used(emotion_cfg@.len() as int, width_sheet as int),
            r.max_height == rows_used(emotion_cfg@.len() as int, width_sheet as int),
    {
        let ghost texts = emotion_texts(emotion_cfg@);
        let mut emotion_positions: Vec<(String, (i32, i32))> = Vec::new();
        let mut idx: usize = 0;
        let mut col: i32 = 0;
        let mut row: i32 = 0;
        assert(position_texts(emotion_positions@) =~= Seq::<(Seq<char>, (i32, i32))>::empty());
        while idx < emotion_cfg.len()
            invariant
                idx <= emotion_cfg.len(),
                emotion_cfg@.len() <= i32::MAX,
                width_sheet > 0,
                texts == emotion_texts(emotion_cfg@),
                0 <= col < width_sheet,
                0 <= row <= idx,
                idx == row * width_sheet + col,
                position_texts(emotion_positions@) == positions_of(
                    texts,
                    width_sheet as int,
                    idx as int,
                ),
            decreases emotion_cfg.len() - idx,
        {
            proof {
                vstd::arithmetic::div_mod::lemma_fundamental_div_mod_converse(
                    idx as int,
                    width_sheet as int,
                    row as int,
                    col as int,
                );
            }
            let ghost before = position_texts(emotion_positions@);
            let pos = (col, row);
            match find_position(&emotion_positions, emotion_cfg[idx].as_str()) {
                Some(k) => {
                    emotion_positions[k] = (emotion_cfg[idx].clone(), pos);
                    assert(position_texts(emotion_positions@) =~= before.update(
                        k as int,
                        (texts[idx as int], pos),
                    ));
                },
                None => {
                    emotion_positions.push((emotion_cfg[idx].clone(), pos));
                    assert(position_texts(emotion_positions@) =~= before.push(
                        (texts[idx as int], pos),
                    ));
                },
            }
            if col == width_sheet - 1 {
                col = 0;
                row += 1;
                assert((row - 1) * width_sheet + (width_sheet - 1) + 1 == row * width_sheet)
                    by (nonlinear_arith);
            } else {
                col += 1;
            }
            idx += 1;
        }
        let n = emotion_cfg.len();
        let max_width: i32 = if n < width_sheet as usize { n as i32 } else { width_sheet };
        proof {
            assert(row * width_sheet >= row) by (nonlinear_arith)
                requires
                    row >= 0,
                    width_sheet >= 1,
            ;
        }
        let max_height: i32 = if col == 0 { row } else { row + 1 };
        proof {
            let w = width_sheet as int;
            if col == 0 {
                assert(n + w - 1 == row * w + (w - 1));
                vstd::arithmetic::div_mod::lemma_fundamental_div_mod_converse(
                    n + w - 1,
                    w,
                    row as int,
                    w - 1,
                );
            } else {
                assert(n + w - 1 == (row + 1) * w + (col - 1)) by (nonlinear_arith)
                    requires
                        n == row * w + col,
                ;
                vstd::arithmetic::div_mod::lemma_fundamental_div_mod_converse(
                    n + w - 1,
                    w,
                    row + 1,
                    col - 1,
                );
            }
        }
        PortraitSheetEmotions { emotion_positions, max_width, max_height }
    }
}

/// One portrait to be put into the sheet: its emotion, its place in the
/// sheet in portraits, and the bytes of its image file where the file is
/// there.
pub struct Paste {
    pub name: Seq<char>,
    pub x: int,
    pub y: int,
    pub image: Option<(u32, u32, Seq<Pixel>)>,
}

/// The bytes of the file with the given name, if it is among `files`.
pub open spec fn file_bytes(files: Seq<(String, Vec<u8>)>, name: Seq<char>) -> Option<Seq<u8>>
    decreases files.len(),
{
    if files.len() == 0 {
        None
    } else if files[0].0@ == name {
        Some(files[0].1@)
    } else {
        file_bytes(files.drop_first(), name)
    }
}

/// The image of the file with the given name, where the file is there and
/// can be decoded.
pub open spec fn file_image(files: Seq<(String, Vec<u8>)>, name: Seq<char>) -> Option<
    (u32, u32, Seq<Pixel>),
> {
    match file_bytes(files, name) {
        Some(b) => decoded_bitmap(b),
        None => None,
    }
}

/// `after` is `before` with the image pasted at `(x, y)`.
pub open spec fn pasted(before: &Bitmap, after: &Bitmap, image: (u32, u32, Seq<Pixel>), x: int, y: int) -> bool {
    &&& after.wf()
    &&& after.width == before.width
    &&& after.height == before.height
    &&& forall|i: int, j: int|
        after.holds(i, j) ==> #[trigger] after.px(i, j) == (if x <= i < x + image.0 && y <= j < y
            + image.1 {
            image.2[(j - y) * image.0 + (i - x)]
        } else {
            before.px(i, j)
        })
}

/// The image fits into the canvas at `(x, y)`.
pub open spec fn paste_fits(canvas: &Bitmap, image: (u32, u32, Seq<Pixel>), x: int, y: int) -> bool {
    0 <= x && 0 <= y && image.0 + x <= canvas.width && image.1 + y <= canvas.height
}

/// What the file `k` of the group does to the sheet: a sheet that already
/// failed stays so; a file whose emotion the configuration does not list, or
/// whose image is missing or cannot be decoded, changes nothing; else the
/// image is pasted at the place of its emotion, or the sheet fails with the
/// name of the file where the image does not fit.
pub open spec fn paste_step(
    names: Seq<Seq<char>>,
    emotions: &PortraitSheetEmotions,
    files: Seq<(String, Vec<u8>)>,
    size: int,
    padding_top: int,
    k: int,
    prev: Result<Bitmap, Seq<char>>,
    r: Result<Bitmap, Seq<char>>,
) -> bool {
    match prev {
        Err(e) => r == Err::<Bitmap, Seq<char>>(e),
        Ok(canvas) => match (emotions.position(names[k]), file_image(files, names[k])) {
            (Some(pos), Some(image)) => {
                let x = pos.0 * size;
                let y = pos.1 * size + padding_top;
                if paste_fits(&canvas, image, x, y) {
                    r matches Ok(after) && pasted(&canvas, &after, image, x, y)
                } else {
                    r == Err::<Bitmap, Seq<char>>(names[k])
                }
            },
            _ => r == Ok::<Bitmap, Seq<char>>(canvas),
        },
    }
}

/// `states` tells how the sheet comes about: it starts with an empty canvas
/// of the given size, and every file of the group, in order, takes the sheet
/// from one state to the next.
pub open spec fn sheet_run(
    names: Seq<Seq<char>>,
    emotions: &PortraitSheetEmotions,
    files: Seq<(String, Vec<u8>)>,
    size: int,
    padding_top: int,
    w: u32,
    h: u32,
    states: Seq<Result<Bitmap, Seq<char>>>,
) -> bool {
    &&& states.len() == names.len() + 1
    &&& states[0] matches Ok(c) && blank_canvas(&c, w, h)
    &&& forall|k: int|
        0 <= k < names.len() ==> paste_step(
            names,
            emotions,
            files,
            size,
            padding_top,
            k,
            #[trigger] states[k],
            states[k + 1],
        )
}

/// The product of two 32-bit numbers.
fn times(a: i32, b: i32) -> (r: i64)
    ensures
        r == a * b,
        -0x4000_0000_0000_0000 <= r <= 0x4000_0000_0000_0000,
{
    assert(-0x8000_0000 * 0x8000_0000 <= a * b <= 0x8000_0000 * 0x8000_0000) by (nonlinear_arith)
        requires
            -0x8000_0000 <= a <= 0x8000_0000,
            -0x8000_0000 <= b <= 0x8000_0000,
    ;
    (a as i64) * (b as i64)
}

pub(crate) fn find_file<'a>(files: &'a Vec<(String, Vec<u8>)>, name: &str) -> (r: Option<&'a Vec<u8>>)
    ensures
        match r {
            Some(b) => file_bytes(files@, name@) == Some(b@),
            None => file_bytes(files@, name@) is None,
        },
{
    let mut i: usize = 0;
    assert(files@.subrange(0, files@.len() as int) =~= files@);
    while i < files.len()
        invariant
            i <= files.len(),
            file_bytes(files@, name@) == file_bytes(
                files@.subrange(i as int, files@.len() as int),
                name@,
            ),
        decreases files.len() - i,
    {
        let ghost rest = files@.subrange(i as int, files@.len() as int);
        assert(rest[0] == files@[i as int]);
        assert(rest.drop_first() =~= files@.subrange(i as int + 1, files@.len() as int));
        if same_text(files[i].0.as_str(), name) {
            return Some(&files[i].1);
        }
        i += 1;
    }
    None
}

/// The size of the canvas of a sheet, or `None` where a side is negative or
/// larger than an image can be.
pub open spec fn canvas_size(emotions: &PortraitSheetEmotions, size: int, padding_top: int) -> Option<
    (u32, u32),
> {
    let w = emotions.max_width * size;
    let h = emotions.max_height * size + padding_top;
    if 0 <= w <= MAX_SIDE && 0 <= h <= MAX_SIDE && w * h <= usize::MAX {
        Some((w as u32, h as u32))
    } else {
        None
    }
}

/// `canvas` is the empty canvas of a sheet.
pub open spec fn blank_canvas(canvas: &Bitmap, w: u32, h: u32) -> bool {
    canvas.wf() && canvas.width == w && canvas.height == h && forall|i: int|
        0 <= i < canvas.pixels@.len() ==> canvas.pixels@[i] == blank()
}

/// `r` is the portrait sheet of the group: the canvas with all portraits, or
/// the reason why it cannot be made.
pub open spec fn portrait_sheet(
    padding_top: int,
    names: Seq<Seq<char>>,
    emotions: &PortraitSheetEmotions,
    files: Seq<(String, Vec<u8>)>,
    size: int,
    r: Result<Bitmap, SheetError>,
) -> bool {
    match canvas_size(emotions, size, padding_top) {
        None => r == Err::<Bitmap, SheetError>(SheetError::TooLarge),
        Some(dims) => exists|states: Seq<Result<Bitmap, Seq<char>>>|
            (#[trigger] sheet_run(names, emotions, files, size, padding_top, dims.0, dims.1, states))
                && sheet_outcome(states.last(), r),
    }
}

/// `r` is the result that the last state of a sheet stands for.
pub open spec fn sheet_outcome(last: Result<Bitmap, Seq<char>>, r: Result<Bitmap, SheetError>) -> bool {
    match last {
        Ok(canvas) => r == Ok::<Bitmap, SheetError>(canvas),
        Err(name) => r matches Err(SheetError::DimensionMismatch(n)) && n@ == name,
    }
}

/// The names of the files of a map, in the map's order.
pub open spec fn names_of(files: IndexMap<String, bool>) -> Seq<Seq<char>> {
    Seq::new(file_entries(files).len(), |i: int| file_entries(files)[i].0)
}

/// Puts the portraits of a group into a sheet. `files` holds the image files
/// of the form, each under the name of its emotion.
pub fn do_make_portrait_sheet(
    padding_top: i32,
    group: &Group,
    emotions: &PortraitSheetEmotions,
    files: &Vec<(String, Vec<u8>)>,
    portrait_size: i32,
) -> (r: Result<Bitmap, SheetError>)
    ensures
        portrait_sheet(
            padding_top as int,
            names_of(group.portrait_files),
            emotions,
            files@,
            portrait_size as int,
            r,
        ),
        r matches Ok(img) ==> img.wf(),
{
    let ghost all_names = names_of(group.portrait_files);
    let ghost size = portrait_size as int;
    let ghost pad = padding_top as int;
    let wide: i64 = times(emotions.max_width, portrait_size);
    let high: i64 = times(emotions.max_height, portrait_size) + padding_top as i64;
    if wide < 0 || high < 0 || wide > MAX_SIDE as i64 || high > MAX_SIDE as i64 {
        return Err(SheetError::TooLarge);
    }
    let mut img = match Bitmap::new(wide as u32, high as u32) {
        Some(b) => b,
        None => {
            return Err(SheetError::TooLarge);
        },
    };
    let ghost w = img.width;
    let ghost h = img.height;
    let ghost mut states: Seq<Result<Bitmap, Seq<char>>> = seq![Ok(img)];
    let names = file_names(&group.portrait_files);
    assert(emotion_texts(names@) =~= all_names);
    let mut i: usize = 0;
    while i < names.len()
        invariant
            i <= names.len(),
            emotion_texts(names@) == all_names,
            all_names == names_of(group.portrait_files),
            size == portrait_size as int,
            pad == padding_top as int,
            img.wf(),
            canvas_size(emotions, size, pad) == Some((w, h)),
            states.len() == i + 1,
            states[0] matches Ok(c) && blank_canvas(&c, w, h),
            states[i as int] == Ok::<Bitmap, Seq<char>>(img),
            forall|k: int|
                0 <= k < i ==> paste_step(
                    all_names,
                    emotions,
                    files@,
                    size,
                    pad,
                    k,
                    #[trigger] states[k],
                    states[k + 1],
                ),
        decreases names.len() - i,
    {
        let name = &names[i];
        let ghost before = img;
        let ghost old_states = states;
        assert(all_names[i as int] == name@);
        let mut failed = false;
        match (find_position(&emotions.emotion_positions, name.as_str()), find_file(
            files,
            name.as_str(),
        )) {
            (Some(k), Some(bytes)) => {
                match decode_image(bytes.as_slice()) {
                    None => {},
                    Some(portrait_img) => {
                        let pos = emotions.emotion_positions[k].1;
                        let x: i64 = times(pos.0, portrait_size);
                        let y: i64 = times(pos.1, portrait_size) + padding_top as i64;
                        let ghost image = (
                            portrait_img.width,
                            portrait_img.height,
                            portrait_img.pixels@,
                        );
                        let fits = x >= 0 && y >= 0 && x <= MAX_SIDE as i64 && y <= MAX_SIDE as i64
                            && img.width as i64 >= portrait_img.width as i64 + x && img.height as i64
                            >= portrait_img.height as i64 + y;
                        if !fits {
                            failed = true;
                        } else {
                            let done = img.copy_from(&portrait_img, x as u32, y as u32);
                            assert(done);
                            proof {
                                reveal(Bitmap::px);
                                assert(pasted(&before, &img, image, x as int, y as int));
                            }
                        }
                    },
                }
            },
            _ => {},
        }
        if failed {
            let e = SheetError::DimensionMismatch(name.clone());
            proof {
                let bad: Result<Bitmap, Seq<char>> = Err(name@);
                let total = all_names.len() + 1;
                let full = Seq::new(
                    total,
                    |k: int|
                        if k <= i {
                            old_states[k]
                        } else {
                            bad
                        },
                );
                assert(paste_step(all_names, emotions, files@, size, pad, i as int, Ok(before), bad));
                assert forall|k: int| 0 <= k < all_names.len() implies paste_step(
                    all_names,
                    emotions,
                    files@,
                    size,
                    pad,
                    k,
                    #[trigger] full[k],
                    full[k + 1],
                ) by {
                    if k < i {
                        assert(paste_step(
                            all_names,
                            emotions,
                            files@,
                            size,
                            pad,
                            k,
                            old_states[k],
                            old_states[k + 1],
                        ));
                    }
                }
                assert(sheet_run(all_names, emotions, files@, size, pad, w, h, full));
                assert(full.last() == bad);
                let result: Result<Bitmap, SheetError> = Err(e);
                assert(sheet_outcome(full.last(), result));
                assert(exists|st: Seq<Result<Bitmap, Seq<char>>>|
                    (#[trigger] sheet_run(all_names, emotions, files@, size, pad, w, h, st))
                        && sheet_outcome(st.last(), result));
                assert(canvas_size(emotions, size, pad) matches Some(dims) && dims.0 == w
                    && dims.1 == h);
                assert(portrait_sheet(pad, all_names, emotions, files@, size, result));
            }
            return Err(e);
        }
        proof {
            states = old_states.push(Ok(img));
            assert(paste_step(all_names, emotions, files@, size, pad, i as int, Ok(before), Ok(img)));
            assert forall|k: int| 0 <= k < i + 1 implies paste_step(
                all_names,
                emotions,
                files@,
                size,
                pad,
                k,
                #[trigger] states[k],
                states[k + 1],
            ) by {
                if k < i {
                    assert(paste_step(
                        all_names,
                        emotions,
                        files@,
                        size,
                        pad,
                        k,
                        old_states[k],
                        old_states[k + 1],
                    ));
                }
            }
        }
        i += 1;
    }
    proof {
        assert(sheet_run(all_names, emotions, files@, size, pad, w, h, states));
        assert(states.last() == Ok::<Bitmap, Seq<char>>(img));
        assert(canvas_size(emotions, size, pad) == Some((w, h)));
        assert(sheet_outcome(states.last(), Ok(img)));
        let result: Result<Bitmap, SheetError> = Ok(img);
        assert(exists|st: Seq<Result<Bitmap, Seq<char>>>|
            (#[trigger] sheet_run(all_names, emotions, files@, size, pad, w, h, st))
                && sheet_outcome(st.last(), result));
        assert(canvas_size(emotions, size, pad) matches Some(dims) && dims.0 == w && dims.1 == h);
        assert(portrait_sheet(pad, all_names, emotions, files@, size, result));
    }
    Ok(img)
}

/// `r` is the encoded sheet of the group.
pub open spec fn encoded_sheet(
    recolor: bool,
    names: Seq<Seq<char>>,
    emotions: &PortraitSheetEmotions,
    files: Seq<(String, Vec<u8>)>,
    size: int,
    r: Result<Seq<u8>, SheetError>,
) -> bool {
    exists|sheet: Result<Bitmap, SheetError>|
        (#[trigger] portrait_sheet(padding_of(recolor), names, emotions, files, size, sheet))
            && sheet_encoding(recolor, sheet, r)
}

/// `r` is a result that is to be cached, with the given bytes or error.
pub open spec fn cached_bytes(
    r: Result<CacheBehaviour<Vec<u8>>, SheetError>,
) -> Option<Result<Seq<u8>, SheetError>> {
    match r {
        Ok(CacheBehaviour::Cache(b)) => Some(Ok(b@)),
        Ok(CacheBehaviour::NoCache(_)) => None,
        Err(e) => Some(Err(e)),
    }
}

/// `r` is what encoding a sheet gives.
pub open spec fn sheet_encoding(recolor: bool, sheet: Result<Bitmap, SheetError>, r: Result<Seq<u8>, SheetError>) -> bool {
    match sheet {
        Err(e) => r == Err::<Seq<u8>, SheetError>(e),
        Ok(img) => if recolor {
            encoded_as(img, r)
        } else {
            match png_encoded(img.width, img.height, rgba_of(img.pixels@)) {
                Some(b) => r == Ok::<Seq<u8>, SheetError>(b),
                None => r == Err::<Seq<u8>, SheetError>(SheetError::Encode),
            }
        },
    }
}

/// The number of rows that a sheet has above its portraits.
pub open spec fn padding_of(recolor: bool) -> int {
    if recolor {
        1
    } else {
        0
    }
}

/// Builds the portrait sheet of a form as PNG. The result is always to be
/// cached.
pub fn make_portrait_sheet(
    group: &Group,
    emotions: &PortraitSheetEmotions,
    files: &Vec<(String, Vec<u8>)>,
    portrait_size: i32,
) -> (r: Result<CacheBehaviour<Vec<u8>>, SheetError>)
    ensures
        cached_bytes(r) matches Some(b) && encoded_sheet(
            false,
            names_of(group.portrait_files),
            emotions,
            files@,
            portrait_size as int,
            b,
        ),
{
    let sheet = do_make_portrait_sheet(0, group, emotions, files, portrait_size);
    let ghost kept = sheet;
    let r = match sheet {
        Err(e) => Err(e),
        Ok(img) => to_png(&img),
    };
    proof {
        assert(sheet_encoding(false, kept, bytes_view(r)));
        assert(portrait_sheet(
            padding_of(false),
            names_of(group.portrait_files),
            emotions,
            files@,
            portrait_size as int,
            kept,
        ));
    }
    match r {
        Ok(b) => Ok(CacheBehaviour::Cache(b)),
        Err(e) => Err(e),
    }
}

/// Builds the portrait recolor sheet of a form as PNG: the sheet with one
/// more row at the top, which holds the palette. The result is always to be
/// cached.
pub fn make_portrait_recolor_sheet(
    group: &Group,
    emotions: &PortraitSheetEmotions,
    files: &Vec<(String, Vec<u8>)>,
    portrait_size: i32,
) -> (r: Result<CacheBehaviour<Vec<u8>>, SheetError>)
    ensures
        cached_bytes(r) matches Some(b) && encoded_sheet(
            true,
            names_of(group.portrait_files),
            emotions,
            files@,
            portrait_size as int,
            b,
        ),
{
    let sheet = do_make_portrait_sheet(1, group, emotions, files, portrait_size);
    let ghost kept = sheet;
    let r = match sheet {
        Err(e) => Err(e),
        Ok(img) => {
            let ghost atlas = img;
            let mut img = img;
            match add_palette_to(&mut img) {
                Err(e) => Err(e),
                Ok(()) => {
                    assert(img.pixels@ =~= with_palette(atlas.pixels@));
                    to_png(&img)
                },
            }
        },
    };
    proof {
        assert(sheet_encoding(true, kept, bytes_view(r)));
        assert(portrait_sheet(
            padding_of(true),
            names_of(group.portrait_files),
            emotions,
            files@,
            portrait_size as int,
            kept,
        ));
    }
    match r {
        Ok(b) => Ok(CacheBehaviour::Cache(b)),
        Err(e) => Err(e),
    }
}

} // verus!
