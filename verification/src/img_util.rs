//! Decoding and encoding of images, and the palette row of recolor sheets.

use vstd::prelude::*;
use crate::bitmap::{Bitmap, Pixel};
use crate::error::SheetError;

verus! {

/// What `image::load_from_memory` followed by `DynamicImage::to_rgba8`
/// gives for the bytes of an image file: the width, the height and the RGBA
/// bytes, or `None` where the bytes cannot be decoded.
pub uninterp spec fn image_decoded(bytes: Seq<u8>) -> Option<(u32, u32, Seq<u8>)>;

/// What `ImageBuffer::write_to` with the PNG format writes for an RGBA image
/// of the given size and bytes, or `None` where it fails.
pub uninterp spec fn png_encoded(width: u32, height: u32, raw: Seq<u8>) -> Option<Seq<u8>>;

/// Calls `image::load_from_memory` and converts the image with `to_rgba8`.
/// The contract only names the result.
#[verifier::external_body]
fn decode_rgba(bytes: &[u8]) -> (r: Option<(u32, u32, Vec<u8>)>)
    ensures
        match r {
            Some(t) => image_decoded(bytes@) == Some((t.0, t.1, t.2@)),
            None => image_decoded(bytes@) is None,
        },
{
    match image::load_from_memory(bytes) {
        Ok(img) => {
            let rgba = img.to_rgba8();
            Some((rgba.width(), rgba.height(), rgba.into_raw()))
        },
        Err(_) => None,
    }
}

/// Builds an `image::RgbaImage` from the bytes with `from_raw` and writes it
/// as PNG with `write_to`. The contract only names the result.
#[verifier::external_body]
fn encode_rgba(width: u32, height: u32, raw: Vec<u8>) -> (r: Option<Vec<u8>>)
    ensures
        match r {
            Some(b) => png_encoded(width, height, raw@) == Some(b@),
            None => png_encoded(width, height, raw@) is None,
        },
{
    let img = image::RgbaImage::from_raw(width, height, raw)?;
    let mut out: Vec<u8> = Vec::new();
    img.write_to(&mut std::io::Cursor::new(&mut out), image::ImageOutputFormat::Png).ok()?;
    Some(out)
}

/// The pixels that the RGBA bytes spell, four bytes each.
pub open spec fn pixels_of(raw: Seq<u8>) -> Seq<Pixel> {
    Seq::new(
        raw.len() / 4,
        |i: int| Pixel { r: raw[4 * i], g: raw[4 * i + 1], b: raw[4 * i + 2], a: raw[4 * i + 3] },
    )
}

/// The RGBA bytes of the pixels, four bytes each.
pub open spec fn rgba_of(pixels: Seq<Pixel>) -> Seq<u8> {
    Seq::new(
        4 * pixels.len(),
        |i: int|
            if i % 4 == 0 {
                pixels[i / 4].r
            } else if i % 4 == 1 {
                pixels[i / 4].g
            } else if i % 4 == 2 {
                pixels[i / 4].b
            } else {
                pixels[i / 4].a
            },
    )
}

/// The image that the bytes of an image file hold, if they decode to an
/// image that a [`Bitmap`] can hold.
pub open spec fn decoded_bitmap(bytes: Seq<u8>) -> Option<(u32, u32, Seq<Pixel>)> {
    match image_decoded(bytes) {
        Some((w, h, raw)) => if w <= crate::bitmap::MAX_SIDE && h <= crate::bitmap::MAX_SIDE
            && raw.len() == 4 * (w * h) {
            Some((w, h, pixels_of(raw)))
        } else {
            None
        },
        None => None,
    }
}

/// Decodes the bytes of an image file.
pub fn decode_image(bytes: &[u8]) -> (r: Option<Bitmap>)
    ensures
        match r {
            Some(img) => img.wf() && decoded_bitmap(bytes@) == Some(
                (img.width, img.height, img.pixels@),
            ),
            None => decoded_bitmap(bytes@) is None,
        },
{
    match decode_rgba(bytes) {
        Some((w, h, raw)) => {
            let r = Bitmap::from_rgba(w, h, &raw);
            proof {
                if r is Some {
                    assert(r->0.pixels@ =~= pixels_of(raw@));
                }
            }
            r
        },
        None => None,
    }
}

/// Encodes an image as PNG.
pub fn to_png(img: &Bitmap) -> (r: Result<Vec<u8>, SheetError>)
    requires
        img.wf(),
    ensures
        match r {
            Ok(b) => png_encoded(img.width, img.height, rgba_of(img.pixels@)) == Some(b@),
            Err(e) => e == SheetError::Encode && png_encoded(
                img.width,
                img.height,
                rgba_of(img.pixels@),
            ) is None,
        },
{
    let raw = img.to_rgba();
    proof {
        assert(raw@ =~= rgba_of(img.pixels@)) by {
            assert forall|i: int| 0 <= i < raw@.len() implies raw@[i] == rgba_of(img.pixels@)[i] by {
                let k = i / 4;
                assert(img.pixels@[k] == (Pixel {
                    r: raw@[4 * k],
                    g: raw@[4 * k + 1],
                    b: raw@[4 * k + 2],
                    a: raw@[4 * k + 3],
                }));
            }
        }
    }
    match encode_rgba(img.width, img.height, raw) {
        Some(b) => Ok(b),
        None => Err(SheetError::Encode),
    }
}

/// The colours of the pixels that are not fully transparent, each once, in
/// the order in which they first occur.
pub open spec fn palette_of(pixels: Seq<Pixel>) -> Seq<Pixel>
    decreases pixels.len(),
{
    if pixels.len() == 0 {
        Seq::empty()
    } else {
        let rest = palette_of(pixels.drop_last());
        let p = pixels.last();
        if p.a == 0 || rest.contains(p) {
            rest
        } else {
            rest.push(p)
        }
    }
}

/// A palette is never longer than the pixels it was taken from.
pub proof fn lemma_palette_len(pixels: Seq<Pixel>)
    ensures
        palette_of(pixels).len() <= pixels.len(),
    decreases pixels.len(),
{
    if pixels.len() > 0 {
        lemma_palette_len(pixels.drop_last());
    }
}

fn palette_has(palette: &Vec<Pixel>, p: Pixel) -> (r: bool)
    ensures
        r == palette@.contains(p),
{
    let mut i: usize = 0;
    while i < palette.len()
        invariant
            i <= palette.len(),
            forall|k: int| 0 <= k < i ==> palette@[k] != p,
        decreases palette.len() - i,
    {
        if palette[i] == p {
            return true;
        }
        i += 1;
    }
    false
}

/// The palette of an image, in raster order.
pub fn collect_palette(img: &Bitmap) -> (palette: Vec<Pixel>)
    ensures
        palette@ == palette_of(img.pixels@),
{
    let mut palette: Vec<Pixel> = Vec::new();
    let mut i: usize = 0;
    while i < img.pixels.len()
        invariant
            i <= img.pixels@.len(),
            palette@ == palette_of(img.pixels@.subrange(0, i as int)),
        decreases img.pixels@.len() - i,
    {
        let p = img.pixels[i];
        proof {
            let next = img.pixels@.subrange(0, i as int + 1);
            assert(next.drop_last() =~= img.pixels@.subrange(0, i as int));
            assert(next.last() == p);
        }
        if p.a != 0 && !palette_has(&palette, p) {
            palette.push(p);
        }
        i += 1;
    }
    assert(img.pixels@.subrange(0, img.pixels@.len() as int) =~= img.pixels@);
    palette
}

/// Writes the palette of the image into its first row, from the left. Where
/// the palette is wider than the image, the image stays as it is.
pub fn add_palette_to(img: &mut Bitmap) -> (r: Result<(), SheetError>)
    requires
        old(img).wf(),
    ensures
        final(img).wf(),
        final(img).width == old(img).width,
        final(img).height == old(img).height,
        r is Ok <==> palette_of(old(img).pixels@).len() <= old(img).width,
        r matches Err(e) ==> e == SheetError::PaletteTooWide && final(img).pixels@ == old(
            img,
        ).pixels@,
        r is Ok ==> forall|i: int|
            0 <= i < final(img).pixels@.len() ==> #[trigger] final(img).pixels@[i] == (if i
                < palette_of(old(img).pixels@).len() {
                palette_of(old(img).pixels@)[i]
            } else {
                old(img).pixels@[i]
            }),
{
    let palette = collect_palette(img);
    if palette.len() > img.width as usize {
        return Err(SheetError::PaletteTooWide);
    }
    proof {
        lemma_palette_len(img.pixels@);
    }
    let mut x: usize = 0;
    while x < palette.len()
        invariant
            x <= palette.len(),
            palette.len() <= img.width,
            palette@.len() <= old(img).pixels@.len(),
            palette@ == palette_of(old(img).pixels@),
            img.wf(),
            img.width == old(img).width,
            img.height == old(img).height,
            img.pixels@.len() == old(img).pixels@.len(),
            forall|i: int|
                0 <= i < img.pixels@.len() ==> #[trigger] img.pixels@[i] == (if i < x {
                    palette@[i]
                } else {
                    old(img).pixels@[i]
                }),
        decreases palette.len() - x,
    {
        proof {
            if img.height == 0 {
                assert(img.width * img.height == 0) by (nonlinear_arith)
                    requires
                        img.height == 0,
                ;
            }
            assert(0 * img.width + x == x) by (nonlinear_arith);
        }
        img.put_pixel(x as u32, 0, palette[x]);
        x += 1;
    }
    Ok(())
}

} // verus!
