use spritecollab::anim_data::{Anim, AnimDataXml, Anims};
use spritecollab::bitmap::{Bitmap, Pixel, MAX_SIDE};
use spritecollab::cache::CacheBehaviour;
use spritecollab::error::{AnchorColor, SheetError};
use spritecollab::img_util::{add_palette_to, collect_palette, decode_image, to_png};
use spritecollab::sprite_cells::{find_anchor, get_covered_bounds, get_offset_from_rgb, imgs_equal};
use spritecollab::sprite_frames::{is_dupe, read_frame, AnimSheet, Frame};
use spritecollab::sprite_offsets::{
    add_to_bounds, offsets_equal, round_up_to_mult, sub_from_bounds, SpriteOffsets,
};
use spritecollab::sprite_sheets::{
    build_recolor_sheet, collect_anim_dims, compose_atlas, get_sprite_frame_size_from_frames,
    get_sprite_frames, grid_side, load_sheets, make_sprite_recolor_sheet,
};

const CLEAR: Pixel = Pixel { r: 0, g: 0, b: 0, a: 0 };
const WHITE: Pixel = Pixel { r: 200, g: 200, b: 200, a: 255 };
const RED: Pixel = Pixel { r: 255, g: 0, b: 0, a: 255 };
const GREEN: Pixel = Pixel { r: 0, g: 255, b: 0, a: 255 };
const BLUE: Pixel = Pixel { r: 0, g: 0, b: 255, a: 255 };
const BLACK: Pixel = Pixel { r: 0, g: 0, b: 0, a: 255 };

fn image(w: u32, h: u32, dots: &[(u32, u32, Pixel)]) -> Bitmap {
    let mut img = Bitmap::new(w, h).unwrap();
    for (x, y, p) in dots {
        img.put_pixel(*x, *y, *p);
    }
    img
}

fn anim(name: &str, w: Option<i64>, h: Option<i64>, copy_of: Option<&str>) -> Anim {
    Anim {
        name: name.to_string(),
        index: None,
        frame_width: w,
        frame_height: h,
        durations: None,
        rush_frame: None,
        hit_frame: None,
        return_frame: None,
        copy_of: copy_of.map(|s| s.to_string()),
    }
}

fn offsets(head: (i32, i32), lhand: (i32, i32), rhand: (i32, i32), center: (i32, i32)) -> SpriteOffsets {
    SpriteOffsets {
        head_x: head.0,
        head_y: head.1,
        lhand_x: lhand.0,
        lhand_y: lhand.1,
        rhand_x: rhand.0,
        rhand_y: rhand.1,
        center_x: center.0,
        center_y: center.1,
    }
}

fn sheet(fw: i32, fh: i32, anim: Bitmap, offs: Bitmap) -> AnimSheet {
    AnimSheet { frame_width: fw, frame_height: fh, images: Some((anim, offs)) }
}

#[test]
fn bitmap_new_is_blank_and_bounded() {
    let img = Bitmap::new(3, 2).unwrap();
    assert_eq!((img.width(), img.height(), img.pixels.len()), (3, 2, 6));
    assert!(img.pixels.iter().all(|p| *p == CLEAR));
    assert!(Bitmap::new(MAX_SIDE + 1, 1).is_none());
    assert!(Bitmap::new(1, MAX_SIDE + 1).is_none());
    assert_eq!(Bitmap::new(0, 5).unwrap().pixels.len(), 0);
    assert!(Bitmap::from_pixels(2, 2, vec![CLEAR; 3]).is_none());
    assert!(Bitmap::from_pixels(2, 2, vec![CLEAR; 4]).is_some());
}

#[test]
fn bitmap_pixels_are_stored_row_by_row() {
    let mut img = Bitmap::new(3, 2).unwrap();
    img.put_pixel(2, 1, RED);
    img.put_pixel(0, 1, BLUE);
    assert_eq!(img.get_pixel(2, 1), RED);
    assert_eq!(img.pixels[5], RED);
    assert_eq!(img.pixels[3], BLUE);
    assert_eq!(img.get_pixel(1, 1), CLEAR);
    let raw = img.to_rgba();
    assert_eq!(raw.len(), 24);
    assert_eq!(&raw[20..24], &[255, 0, 0, 255]);
    let back = Bitmap::from_rgba(3, 2, &raw).unwrap();
    assert_eq!(back.pixels, img.pixels);
    assert!(Bitmap::from_rgba(3, 2, &raw[..23].to_vec()).is_none());
}

#[test]
fn crop_cuts_down_to_the_image() {
    let img = image(4, 3, &[(1, 1, RED), (3, 2, BLUE)]);
    let c = img.crop(1, 1, 2, 2);
    assert_eq!((c.width, c.height), (2, 2));
    assert_eq!(c.get_pixel(0, 0), RED);
    assert_eq!(c.get_pixel(1, 1), CLEAR);
    let c = img.crop(3, 2, 10, 10);
    assert_eq!((c.width, c.height), (1, 1));
    assert_eq!(c.get_pixel(0, 0), BLUE);
    let c = img.crop(9, 9, 2, 2);
    assert_eq!((c.width, c.height), (0, 0));
}

#[test]
fn copy_from_pastes_or_refuses() {
    let mut canvas = image(4, 4, &[(0, 0, GREEN)]);
    let stamp = image(2, 2, &[(0, 0, RED), (1, 1, BLUE)]);
    assert!(canvas.copy_from(&stamp, 2, 1));
    assert_eq!(canvas.get_pixel(2, 1), RED);
    assert_eq!(canvas.get_pixel(3, 2), BLUE);
    assert_eq!(canvas.get_pixel(3, 1), CLEAR);
    assert_eq!(canvas.get_pixel(0, 0), GREEN);
    let before = canvas.pixels.clone();
    assert!(!canvas.copy_from(&stamp, 3, 0));
    assert!(!canvas.copy_from(&stamp, 0, 3));
    assert_eq!(canvas.pixels, before);
}

#[test]
fn png_round_trip_keeps_every_pixel() {
    let img = image(3, 2, &[(0, 0, RED), (2, 1, Pixel { r: 1, g: 2, b: 3, a: 4 })]);
    let bytes = to_png(&img).unwrap();
    assert_eq!(&bytes[..8], &[0x89, b'P', b'N', b'G', 0x0d, 0x0a, 0x1a, 0x0a]);
    let back = decode_image(&bytes).unwrap();
    assert_eq!((back.width, back.height), (3, 2));
    assert_eq!(back.pixels, img.pixels);
    assert!(decode_image(b"not an image").is_none());
    assert!(decode_image(b"").is_none());
}

#[test]
fn palette_lists_colours_in_raster_order() {
    let mut img = image(4, 2, &[(1, 0, RED), (3, 0, BLUE), (0, 1, RED), (2, 1, GREEN)]);
    img.put_pixel(3, 1, Pixel { r: 9, g: 9, b: 9, a: 0 });
    assert_eq!(collect_palette(&img), vec![RED, BLUE, GREEN]);
    assert!(add_palette_to(&mut img).is_ok());
    assert_eq!(img.get_pixel(0, 0), RED);
    assert_eq!(img.get_pixel(1, 0), BLUE);
    assert_eq!(img.get_pixel(2, 0), GREEN);
    assert_eq!(img.get_pixel(3, 0), BLUE);
    assert_eq!(img.get_pixel(2, 1), GREEN);
}

#[test]
fn palette_wider_than_the_image_is_refused() {
    let mut img = image(2, 2, &[(0, 0, RED), (1, 0, BLUE), (0, 1, GREEN)]);
    let before = img.pixels.clone();
    assert_eq!(add_palette_to(&mut img), Err(SheetError::PaletteTooWide));
    assert_eq!(img.pixels, before);
}

#[test]
fn covered_bounds_are_tight_and_relative_to_the_cell() {
    let img = image(8, 8, &[(5, 2, WHITE), (6, 3, WHITE), (1, 1, WHITE)]);
    assert_eq!(get_covered_bounds(&img, (4, 0, 8, 4)), (1, 2, 3, 4));
    assert_eq!(get_covered_bounds(&img, (0, 0, 4, 4)), (1, 1, 2, 2));
    assert_eq!(get_covered_bounds(&img, (0, 0, 8, 8)), (1, 1, 7, 4));
    // A cell without a visible pixel: the rectangle is empty.
    let b = get_covered_bounds(&img, (4, 4, 8, 8));
    assert_eq!(b, (4, 4, -4, -4));
    assert!(b.0 >= b.2);
}

#[test]
fn anchors_are_found_by_colour() {
    let img = image(
        8,
        4,
        &[(5, 1, BLACK), (6, 2, RED), (4, 3, GREEN), (7, 0, BLUE), (1, 1, RED), (6, 1, Pixel { r: 255, g: 0, b: 0, a: 254 })],
    );
    let h = get_offset_from_rgb(&img, (4, 0, 8, 4), true, true, true, true, false).unwrap();
    assert_eq!(h.black, Some((1, 1)));
    assert_eq!(h.red, Some((2, 2)));
    assert_eq!(h.green, Some((0, 3)));
    assert_eq!(h.blue, Some((3, 0)));
    assert_eq!(h.white, None);
    let h = get_offset_from_rgb(&img, (0, 0, 4, 4), true, true, true, true, true).unwrap();
    assert_eq!((h.black, h.red, h.green, h.blue, h.white), (None, Some((1, 1)), None, None, None));
    let h = get_offset_from_rgb(&img, (4, 0, 8, 4), false, false, true, false, false).unwrap();
    assert_eq!((h.black, h.red, h.green, h.blue), (None, None, Some((0, 3)), None));
}

#[test]
fn two_anchors_of_one_colour_are_an_error() {
    let img = image(4, 4, &[(0, 0, RED), (3, 3, RED), (1, 1, BLUE), (2, 2, BLUE)]);
    assert_eq!(
        get_offset_from_rgb(&img, (0, 0, 4, 4), true, true, true, true, false).unwrap_err(),
        SheetError::MultiplePixels(AnchorColor::Blue)
    );
    assert_eq!(
        get_offset_from_rgb(&img, (0, 0, 4, 4), true, true, true, false, false).unwrap_err(),
        SheetError::MultiplePixels(AnchorColor::Red)
    );
    assert_eq!(
        find_anchor(&img, (0, 0, 4, 4), AnchorColor::Red).unwrap_err(),
        SheetError::MultiplePixels(AnchorColor::Red)
    );
    assert!(get_offset_from_rgb(&img, (0, 0, 2, 2), true, true, true, true, false).is_ok());
    assert_eq!(find_anchor(&img, (0, 0, 4, 4), AnchorColor::Green).unwrap(), None);
    // A white pixel counts for red, green and blue at once.
    let img = image(2, 1, &[(0, 0, Pixel { r: 255, g: 255, b: 255, a: 255 })]);
    let h = get_offset_from_rgb(&img, (0, 0, 2, 1), true, true, true, true, true).unwrap();
    assert_eq!((h.red, h.green, h.blue, h.white), (Some((0, 0)), Some((0, 0)), Some((0, 0)), Some((0, 0))));
}

#[test]
fn the_error_names_the_colour_whose_second_pixel_is_read_first() {
    // The pixels are read column by column: green has its second pixel in
    // column 1, red only in column 2.
    let img = image(3, 3, &[(0, 2, RED), (2, 0, RED), (1, 0, GREEN), (1, 1, GREEN)]);
    assert_eq!(
        get_offset_from_rgb(&img, (0, 0, 3, 3), true, true, true, true, true).unwrap_err(),
        SheetError::MultiplePixels(AnchorColor::Green)
    );
    // Within the columns the pixels are read from the top.
    let img = image(2, 4, &[(1, 0, BLUE), (1, 3, BLUE), (1, 1, BLACK), (1, 2, BLACK)]);
    assert_eq!(
        get_offset_from_rgb(&img, (0, 0, 2, 4), true, true, true, true, true).unwrap_err(),
        SheetError::MultiplePixels(AnchorColor::Black)
    );
    // A pixel that is the second one of several colours names the first of
    // them in the order black, red, green, blue, white.
    let full = Pixel { r: 255, g: 255, b: 255, a: 255 };
    let img = image(2, 2, &[(0, 0, full), (1, 1, full)]);
    assert_eq!(
        get_offset_from_rgb(&img, (0, 0, 2, 2), true, true, true, true, true).unwrap_err(),
        SheetError::MultiplePixels(AnchorColor::Red)
    );
    assert_eq!(
        get_offset_from_rgb(&img, (0, 0, 2, 2), true, false, false, true, true).unwrap_err(),
        SheetError::MultiplePixels(AnchorColor::Blue)
    );
    assert_eq!(
        get_offset_from_rgb(&img, (0, 0, 2, 2), true, false, false, false, true).unwrap_err(),
        SheetError::MultiplePixels(AnchorColor::White)
    );
    assert!(get_offset_from_rgb(&img, (0, 0, 2, 2), true, false, false, false, false).is_ok());
    // Pixels outside the cell do not count.
    let img = image(4, 2, &[(0, 0, RED), (2, 0, RED), (3, 1, RED)]);
    assert!(get_offset_from_rgb(&img, (0, 0, 2, 2), true, true, true, true, true).is_ok());
    assert!(get_offset_from_rgb(&img, (2, 0, 4, 2), true, true, true, true, true).is_err());
}

#[test]
fn offsets_move_and_bound() {
    let mut o = offsets((1, 2), (3, 4), (5, 6), (7, 8));
    o.add_loc((-1, 10));
    assert_eq!(o, offsets((0, 12), (2, 14), (4, 16), (6, 18)));
    assert_eq!(o.get_bounds_head(), (0, 12, 1, 13));
    assert_eq!(o.get_bounds_lhand(), (2, 14, 3, 15));
    assert_eq!(o.get_bounds_rhand(), (4, 16, 5, 17));
    assert_eq!(o.get_bounds_center(), (6, 18, 7, 19));
    assert_eq!(o.get_bounds(), (0, 12, 7, 19));
    assert_eq!(SpriteOffsets::combine_extents((0, 5, 3, 9), (1, 2, 8, 6)), (0, 2, 8, 9));
    assert_eq!(SpriteOffsets::default(), offsets((0, 0), (0, 0), (0, 0), (0, 0)));
    assert_eq!(add_to_bounds((1, 2, 3, 4), (10, 20)), (11, 22, 13, 24));
    assert_eq!(sub_from_bounds((11, 22, 13, 24), (10, 20)), (1, 2, 3, 4));
}

#[test]
fn centered_bounds_have_the_centre_as_midpoint() {
    let o = offsets((0, 12), (2, 14), (4, 16), (6, 18));
    // bounds (0, 12, 7, 19) around (4, 10): 4 to the left, 3 to the right; 2 above, 9 below.
    assert_eq!(o.get_centered_bounds((4, 10)), (0, 1, 8, 19));
    let o = offsets((10, 10), (10, 10), (10, 10), (10, 10));
    assert_eq!(o.get_centered_bounds((10, 10)), (9, 9, 11, 11));
}

#[test]
fn round_up_to_mult_rounds_to_the_next_multiple() {
    assert_eq!(round_up_to_mult(0, 2), 0);
    assert_eq!(round_up_to_mult(1, 2), 2);
    assert_eq!(round_up_to_mult(2, 2), 2);
    assert_eq!(round_up_to_mult(7, 2), 8);
    assert_eq!(round_up_to_mult(9, 4), 12);
    assert_eq!(round_up_to_mult(12, 4), 12);
}

#[test]
fn offsets_equal_directly_or_mirrored() {
    let a = offsets((1, 2), (3, 4), (5, 6), (7, 8));
    let b = offsets((1, 2), (3, 4), (5, 6), (7, 8));
    assert!(offsets_equal(&a, &b, 10, false));
    assert!(!offsets_equal(&a, &offsets((1, 2), (3, 4), (5, 6), (7, 9)), 10, false));
    // x' = width - 1 - x
    let mirrored = offsets((8, 2), (6, 4), (4, 6), (2, 8));
    assert!(offsets_equal(&a, &mirrored, 10, true));
    assert!(offsets_equal(&mirrored, &a, 10, true));
    assert!(!offsets_equal(&a, &mirrored, 10, false));
    assert!(!offsets_equal(&a, &mirrored, 11, true));
}

#[test]
fn images_equal_directly_or_mirrored() {
    let a = image(3, 2, &[(0, 0, RED), (1, 1, BLUE)]);
    let b = image(3, 2, &[(0, 0, RED), (1, 1, BLUE)]);
    let m = image(3, 2, &[(2, 0, RED), (1, 1, BLUE)]);
    assert!(imgs_equal(&a, &b, false));
    assert!(!imgs_equal(&a, &b, true));
    assert!(imgs_equal(&a, &m, true));
    assert!(imgs_equal(&m, &a, true));
    assert!(!imgs_equal(&a, &m, false));
    assert!(!imgs_equal(&a, &image(2, 3, &[]), false));
    assert!(imgs_equal(&a, &a, false));
}

#[test]
fn a_frame_is_cut_to_its_visible_pixels() {
    let anim = image(8, 4, &[(5, 1, WHITE), (6, 2, WHITE)]);
    let offs = image(8, 4, &[(5, 1, BLACK), (6, 2, GREEN), (6, 1, RED), (5, 2, BLUE)]);
    let f = read_frame(&anim, &offs, (4, 0, 8, 4)).unwrap().unwrap();
    assert_eq!((f.image.width, f.image.height), (2, 2));
    assert_eq!(f.image.pixels, vec![WHITE, CLEAR, CLEAR, WHITE]);
    // Anchors in the cell: head (1,1), lhand (2,1), rhand (1,2), centre (2,2); the cut starts at (1,1).
    assert_eq!(f.offsets, offsets((0, 0), (1, 0), (0, 1), (1, 1)));
}

#[test]
fn a_frame_without_head_takes_the_centre() {
    let anim = image(4, 4, &[(1, 1, WHITE)]);
    let offs = image(4, 4, &[(2, 3, GREEN)]);
    let f = read_frame(&anim, &offs, (0, 0, 4, 4)).unwrap().unwrap();
    assert_eq!(f.offsets, offsets((1, 2), (-1, -1), (-1, -1), (1, 2)));
}

#[test]
fn an_empty_cell_gives_no_frame_unless_it_has_a_head() {
    let anim = image(8, 4, &[(5, 1, WHITE)]);
    let none = image(8, 4, &[(1, 1, GREEN)]);
    assert!(read_frame(&anim, &none, (0, 0, 4, 4)).unwrap().is_none());
    let head = image(8, 4, &[(1, 1, BLACK)]);
    let f = read_frame(&anim, &head, (0, 0, 4, 4)).unwrap().unwrap();
    // The middle pixel of the cell stands for the frame.
    assert_eq!((f.image.width, f.image.height), (1, 1));
    assert_eq!(f.image.pixels, vec![CLEAR]);
    assert_eq!(f.offsets, offsets((-1, -1), (-2, -2), (-2, -2), (-2, -2)));
    let twice = image(8, 4, &[(1, 1, RED), (2, 2, RED)]);
    assert_eq!(
        read_frame(&anim, &twice, (0, 0, 4, 4)).unwrap_err(),
        SheetError::MultiplePixels(AnchorColor::Red)
    );
}

#[test]
fn identical_and_mirrored_frames_are_kept_once() {
    // Two cells: the second is the first reflected, with reflected anchors.
    let anim = image(8, 4, &[(0, 1, WHITE), (1, 1, RED), (6, 1, RED), (7, 1, WHITE)]);
    let offs = image(
        8,
        4,
        &[
            (0, 1, BLACK),
            (1, 1, RED),
            (0, 2, GREEN),
            (1, 2, BLUE),
            (7, 1, BLACK),
            (6, 1, RED),
            (7, 2, GREEN),
            (6, 2, BLUE),
        ],
    );
    let frames = get_sprite_frames(&vec![sheet(4, 4, anim, offs)]).unwrap();
    assert_eq!(frames.len(), 1);
    assert_eq!(frames[0].image.pixels, vec![WHITE, RED]);
    assert_eq!(frames[0].offsets, offsets((0, 0), (1, 0), (1, 1), (0, 1)));
    // The frame is 2 wide and 1 high; its anchors, centred on (1, 0), reach 2 up and down.
    let (w, h) = get_sprite_frame_size_from_frames(&frames);
    assert_eq!((w % 2, h % 2), (0, 0));
    assert_eq!((w, h), (2, 4));
    let bytes = build_recolor_sheet(&frames).unwrap();
    let atlas = decode_image(&bytes).unwrap();
    assert_eq!((atlas.width, atlas.height), (2, 4));
}

#[test]
fn mirrored_pixels_with_unmirrored_anchors_are_two_frames() {
    let anim = image(8, 4, &[(0, 1, WHITE), (1, 1, RED), (6, 1, RED), (7, 1, WHITE)]);
    let offs = image(8, 4, &[(0, 1, BLACK), (6, 1, BLACK)]);
    let frames = get_sprite_frames(&vec![sheet(4, 4, anim, offs)]).unwrap();
    assert_eq!(frames.len(), 2);
}

#[test]
fn frames_that_differ_in_anchors_are_both_kept() {
    let anim = image(8, 4, &[(0, 1, WHITE), (4, 1, WHITE)]);
    let offs = image(8, 4, &[(0, 1, BLACK), (5, 1, BLACK)]);
    let frames = get_sprite_frames(&vec![sheet(4, 4, anim, offs)]).unwrap();
    assert_eq!(frames.len(), 2);
    assert!(is_dupe(&frames, &frames[1]));
    let other = Frame { image: image(1, 1, &[(0, 0, WHITE)]), offsets: offsets((9, 9), (0, 0), (0, 0), (0, 0)) };
    assert!(!is_dupe(&frames, &other));
}

#[test]
fn directions_are_read_clockwise() {
    // Eight rows of one cell each, marked by their red channel.
    let mut dots = Vec::new();
    for row in 0..8u32 {
        dots.push((0, row * 2, Pixel { r: row as u8 + 1, g: 0, b: 0, a: 255 }));
    }
    let anim = image(2, 16, &dots);
    let offs = image(2, 16, &[]);
    let frames = get_sprite_frames(&vec![sheet(2, 2, anim, offs)]).unwrap();
    let order: Vec<u8> = frames.iter().map(|f| f.image.pixels[0].r).collect();
    assert_eq!(order, vec![1, 8, 7, 6, 5, 4, 3, 2]);
}

#[test]
fn sheets_without_images_are_passed_over() {
    let missing = AnimSheet { frame_width: 4, frame_height: 4, images: None };
    assert!(get_sprite_frames(&vec![missing]).unwrap().is_empty());
    assert!(get_sprite_frames(&vec![]).unwrap().is_empty());
}

#[test]
fn a_cell_outside_an_image_stops_the_collection() {
    // Two rows: the second direction is read from row 7, which is not there.
    let anim = image(4, 8, &[(0, 0, WHITE)]);
    let offs = image(4, 8, &[]);
    assert_eq!(
        get_sprite_frames(&vec![AnimSheet { frame_width: 4, frame_height: 4, images: None }, sheet(4, 4, anim, offs)])
            .unwrap_err(),
        SheetError::CellOutOfBounds(1)
    );
    // An offsets image smaller than the animation image.
    let anim = image(8, 4, &[(0, 0, WHITE)]);
    let offs = image(4, 4, &[]);
    assert_eq!(
        get_sprite_frames(&vec![sheet(4, 4, anim, offs)]).unwrap_err(),
        SheetError::CellOutOfBounds(0)
    );
    // A width that is no multiple of the cell width.
    let anim = image(6, 4, &[(0, 0, WHITE)]);
    let offs = image(6, 4, &[]);
    assert_eq!(
        get_sprite_frames(&vec![sheet(4, 4, anim, offs)]).unwrap_err(),
        SheetError::CellOutOfBounds(0)
    );
}

#[test]
fn the_first_cell_that_cannot_be_read_gives_the_error() {
    let bad_anchors = || {
        // The second cell of the row holds two blue anchor pixels.
        sheet(
            4,
            4,
            image(8, 4, &[(0, 0, WHITE), (4, 0, WHITE)]),
            image(8, 4, &[(4, 0, BLUE), (5, 1, BLUE)]),
        )
    };
    let too_small = || sheet(4, 4, image(8, 4, &[(0, 0, WHITE)]), image(4, 4, &[]));
    assert_eq!(
        get_sprite_frames(&vec![bad_anchors(), too_small()]).unwrap_err(),
        SheetError::MultiplePixels(AnchorColor::Blue)
    );
    assert_eq!(
        get_sprite_frames(&vec![too_small(), bad_anchors()]).unwrap_err(),
        SheetError::CellOutOfBounds(0)
    );
    // In one sheet, the cells of a row are read before those of the next
    // direction: the row of the second direction is missing here.
    let both = sheet(
        4,
        4,
        image(8, 8, &[(0, 0, WHITE)]),
        image(8, 8, &[(4, 0, RED), (5, 1, RED)]),
    );
    assert_eq!(
        get_sprite_frames(&vec![both]).unwrap_err(),
        SheetError::MultiplePixels(AnchorColor::Red)
    );
}

#[test]
fn a_kept_frame_is_the_first_of_its_kind() {
    // Four cells in a row: two dots, one dot, the two dots again, the one
    // dot again. The frames of the first two cells are kept.
    let anim = image(
        16,
        4,
        &[(0, 0, WHITE), (1, 0, RED), (4, 0, BLUE), (8, 0, WHITE), (9, 0, RED), (12, 0, BLUE)],
    );
    let offs = image(16, 4, &[]);
    let again = sheet(4, 4, anim.clone(), offs.clone());
    let frames = get_sprite_frames(&vec![sheet(4, 4, anim, offs), again]).unwrap();
    assert_eq!(frames.len(), 2);
    assert_eq!(frames[0].image.pixels, vec![WHITE, RED]);
    assert_eq!(frames[1].image.pixels, vec![BLUE]);
}

#[test]
fn a_bad_offsets_cell_stops_the_collection() {
    let anim = image(8, 4, &[(0, 0, WHITE), (4, 0, WHITE)]);
    let offs = image(8, 4, &[(4, 0, BLUE), (5, 1, BLUE)]);
    assert_eq!(
        get_sprite_frames(&vec![sheet(4, 4, anim, offs)]).unwrap_err(),
        SheetError::MultiplePixels(AnchorColor::Blue)
    );
}

#[test]
fn tile_size_takes_anchors_into_account() {
    let small = Frame { image: image(3, 5, &[]), offsets: offsets((1, 2), (1, 2), (1, 2), (1, 2)) };
    assert_eq!(get_sprite_frame_size_from_frames(&vec![small.clone()]), (4, 6));
    // An anchor far to the right of the frame: centre (1, 2), bounds (1, 2, 11, 3).
    let wide = Frame { image: image(3, 5, &[]), offsets: offsets((10, 2), (1, 2), (1, 2), (1, 2)) };
    assert_eq!(get_sprite_frame_size_from_frames(&vec![small, wide]), (20, 6));
    assert_eq!(get_sprite_frame_size_from_frames(&vec![]), (0, 0));
}

#[test]
fn grid_side_is_the_ceiling_of_the_square_root() {
    let expected = [(0, 0), (1, 1), (2, 2), (4, 2), (5, 3), (9, 3), (10, 4), (16, 4), (17, 5), (1000, 32)];
    for (n, side) in expected {
        assert_eq!(grid_side(n), side, "{}", n);
        assert!(side * side >= n as u64);
    }
}

#[test]
fn frames_are_centred_in_their_tiles() {
    let one = |p: Pixel, w: u32, h: u32| {
        let mut img = Bitmap::new(w, h).unwrap();
        for y in 0..h {
            for x in 0..w {
                img.put_pixel(x, y, p);
            }
        }
        Frame { image: img, offsets: offsets((0, 0), (0, 0), (0, 0), (0, 0)) }
    };
    let frames = vec![one(RED, 4, 4), one(GREEN, 2, 2), one(BLUE, 1, 3)];
    let atlas = compose_atlas(&frames, 2, 4, 4).unwrap();
    assert_eq!((atlas.width, atlas.height), (8, 8));
    for y in 0..8 {
        for x in 0..8 {
            let expected = if x < 4 && y < 4 {
                RED
            } else if (5..7).contains(&x) && (1..3).contains(&y) {
                GREEN
            } else if x == 1 && (4..7).contains(&y) {
                BLUE
            } else {
                CLEAR
            };
            assert_eq!(atlas.get_pixel(x, y), expected, "({}, {})", x, y);
        }
    }
    assert_eq!(compose_atlas(&frames, 2, MAX_SIDE, 4).unwrap_err(), SheetError::TooLarge);
}

#[test]
fn the_recolor_sheet_has_its_palette_in_the_first_row() {
    let anim = image(8, 4, &[(1, 1, WHITE), (2, 1, RED), (5, 1, BLUE), (5, 2, BLUE)]);
    let offs = image(8, 4, &[(1, 1, BLACK), (5, 1, BLACK)]);
    let result = make_sprite_recolor_sheet(&vec![sheet(4, 4, anim, offs)]).unwrap();
    let bytes = match result {
        CacheBehaviour::Cache(b) => b,
        CacheBehaviour::NoCache(_) => panic!("the sheet is to be cached"),
    };
    let atlas = decode_image(&bytes).unwrap();
    // Frames of 2x1 and 1x2; with their anchors they ask for tiles of 4x4; two tiles take a
    // grid of 2x2.
    assert_eq!((atlas.width, atlas.height), (8, 8));
    // Frame 0 at (1, 1)..(3, 2) of tile 0, frame 1 at (5, 1)..(6, 3), in tile 1.
    assert_eq!(atlas.get_pixel(1, 1), WHITE);
    assert_eq!(atlas.get_pixel(2, 1), RED);
    assert_eq!(atlas.get_pixel(5, 1), BLUE);
    assert_eq!(atlas.get_pixel(5, 2), BLUE);
    // The palette in raster order.
    assert_eq!(atlas.get_pixel(0, 0), WHITE);
    assert_eq!(atlas.get_pixel(1, 0), RED);
    assert_eq!(atlas.get_pixel(2, 0), BLUE);
    assert_eq!(atlas.get_pixel(3, 0), CLEAR);
    let visible = atlas.pixels.iter().filter(|p| p.a != 0).count();
    assert_eq!(visible, 7);
}

#[test]
fn the_recolor_sheet_of_no_frames_is_empty() {
    assert_eq!(build_recolor_sheet(&vec![]).unwrap_err(), SheetError::Encode);
}

#[test]
fn anim_dims_skip_copies_and_ask_for_sizes() {
    let xml = AnimDataXml {
        shadow_size: 1,
        anims: Anims {
            anim: vec![
                anim("Walk", Some(32), Some(40), None),
                anim("Idle", Some(24), Some(24), None),
                anim("Sleep", None, None, Some("Idle")),
                anim("Walk", Some(16), Some(16), None),
            ],
        },
    };
    let dims = collect_anim_dims(&xml).unwrap();
    let listed: Vec<(&str, i32, i32)> =
        dims.iter().map(|d| (d.name.as_str(), d.frame_width, d.frame_height)).collect();
    assert_eq!(listed, vec![("Walk", 16, 16), ("Idle", 24, 24)]);
    assert_eq!(
        xml.get_action_copies(),
        vec![("Sleep".to_string(), "Idle".to_string())]
    );
    for bad in [
        anim("Hurt", None, Some(8), None),
        anim("Hurt", Some(8), None, None),
        anim("Hurt", Some(0), Some(8), None),
        anim("Hurt", Some(8), Some(-1), None),
        anim("Hurt", Some(8), Some(MAX_SIDE as i64 + 1), None),
    ] {
        let xml = AnimDataXml {
            shadow_size: 1,
            anims: Anims { anim: vec![anim("Walk", Some(32), Some(40), None), bad] },
        };
        assert_eq!(collect_anim_dims(&xml).unwrap_err(), SheetError::InvalidAnim("Hurt".to_string()));
    }
    assert_eq!(AnimDataXml::path_for_form(25, &[1, 0]), "spritecollab/sprite/0025/0001/0000/AnimData.xml");
}

#[test]
fn sheets_are_read_from_the_files_of_a_form() {
    let walk = image(8, 4, &[(0, 0, RED), (4, 0, BLUE)]);
    let blank = image(8, 4, &[]);
    let files = vec![
        ("Walk-Anim.png".to_string(), to_png(&walk).unwrap()),
        ("Walk-Offsets.png".to_string(), to_png(&blank).unwrap()),
        ("Idle-Anim.png".to_string(), to_png(&blank).unwrap()),
        ("Sleep-Anim.png".to_string(), b"no image".to_vec()),
        ("Sleep-Offsets.png".to_string(), to_png(&blank).unwrap()),
        ("Hop-Anim.png".to_string(), to_png(&walk).unwrap()),
        ("Hop-Offsets.png".to_string(), to_png(&blank).unwrap()),
    ];
    let data = anim_data(vec![
        anim("Walk", Some(4), Some(4), None),
        anim("Idle", Some(2), Some(2), None),
        anim("Hop", None, None, Some("Walk")),
        anim("Sleep", Some(8), Some(4), None),
    ]);
    let sheets = load_sheets(&data, &files).unwrap();
    assert_eq!(sheets.len(), 3);
    assert_eq!((sheets[0].frame_width, sheets[0].frame_height), (4, 4));
    let (a, o) = sheets[0].images.as_ref().unwrap();
    assert_eq!(a.pixels, walk.pixels);
    assert_eq!(o.pixels, blank.pixels);
    assert_eq!((sheets[1].frame_width, sheets[1].frame_height), (2, 2));
    assert!(sheets[1].images.is_none());
    assert_eq!((sheets[2].frame_width, sheets[2].frame_height), (8, 4));
    assert!(sheets[2].images.is_none());
    let frames = get_sprite_frames(&sheets).unwrap();
    assert_eq!(frames.len(), 2);
    assert!(matches!(make_sprite_recolor_sheet(&sheets), Ok(CacheBehaviour::Cache(_))));

    let broken = anim_data(vec![anim("Walk", Some(4), Some(4), None), anim("Idle", Some(4), None, None)]);
    assert_eq!(load_sheets(&broken, &files).unwrap_err(), SheetError::InvalidAnim("Idle".to_string()));
    assert!(load_sheets(&anim_data(vec![]), &files).unwrap().is_empty());
}

fn anim_data(anims: Vec<Anim>) -> AnimDataXml {
    AnimDataXml { shadow_size: 1, anims: Anims { anim: anims } }
}
