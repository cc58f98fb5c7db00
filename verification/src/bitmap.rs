//! Images as plain values: a width, a height and one RGBA pixel per cell, row
//! after row. The sheet builders work on this type alone.

use vstd::prelude::*;

verus! {

/// The largest side of a [`Bitmap`]. Coordinates and their sums then fit in
/// 32-bit signed arithmetic.
pub const MAX_SIDE: u32 = 0x0800_0000;

/// One pixel: red, green, blue and alpha.
#[derive(Clone, Copy, Debug, PartialEq, Eq, Structural)]
pub struct Pixel {
    pub r: u8,
    pub g: u8,
    pub b: u8,
    pub a: u8,
}

/// A rectangular RGBA image.
#[derive(Clone, Debug)]
pub struct Bitmap {
    pub width: u32,
    pub height: u32,
    pub pixels: Vec<Pixel>,
}

/// The fully transparent black pixel of a fresh image.
pub open spec fn blank() -> Pixel {
    Pixel { r: 0, g: 0, b: 0, a: 0 }
}

/// A cell inside a `w` by `h` grid has its index inside the pixel vector.
pub proof fn lemma_cell_index(x: int, y: int, w: int, h: int)
    requires
        0 <= x < w,
        0 <= y < h,
    ensures
        0 <= y * w + x < w * h,
{
    assert(y * w + x < w * h) by (nonlinear_arith)
        requires
            0 <= x < w,
            0 <= y < h,
    {
        assert((y + 1) * w <= h * w);
        assert((y + 1) * w == y * w + w);
    }
    assert(0 <= y * w) by (nonlinear_arith)
        requires
            0 <= y,
            0 <= w,
    ;
}

/// Two cells of a grid with the same index are the same cell.
pub proof fn lemma_cell_unique(x1: int, y1: int, x2: int, y2: int, w: int)
    requires
        0 <= x1 < w,
        0 <= x2 < w,
        0 <= y1,
        0 <= y2,
        y1 * w + x1 == y2 * w + x2,
    ensures
        x1 == x2,
        y1 == y2,
{
    if y1 < y2 {
        assert((y1 + 1) * w <= y2 * w) by (nonlinear_arith)
            requires
                y1 + 1 <= y2,
                0 <= w,
        ;
        assert((y1 + 1) * w == y1 * w + w) by (nonlinear_arith);
    } else if y2 < y1 {
        assert((y2 + 1) * w <= y1 * w) by (nonlinear_arith)
            requires
                y2 + 1 <= y1,
                0 <= w,
        ;
        assert((y2 + 1) * w == y2 * w + w) by (nonlinear_arith);
    }
}

impl Bitmap {
    /// The sides are bounded and there is exactly one pixel per cell.
    pub open spec fn wf(&self) -> bool {
        &&& self.width <= MAX_SIDE
        &&& self.height <= MAX_SIDE
        &&& self.pixels@.len() == self.width * self.height
    }

    /// The pixel of column `x` and row `y`.
    #[verifier::opaque]
    pub open spec fn px(&self, x: int, y: int) -> Pixel {
        self.pixels@[y * self.width + x]
    }

    /// `(x, y)` is a cell of the image.
    pub open spec fn holds(&self, x: int, y: int) -> bool {
        0 <= x < self.width && 0 <= y < self.height
    }

    /// A blank image of the given size, or `None` where a side is above
    /// [`MAX_SIDE`] or the pixels cannot be addressed on this machine.
    pub fn new(width: u32, height: u32) -> (r: Option<Bitmap>)
        ensures
            r is Some <==> width <= MAX_SIDE && height <= MAX_SIDE && width * height
                <= usize::MAX,
            r matches Some(img) ==> img.wf() && img.width == width && img.height == height
                && forall|i: int| 0 <= i < img.pixels@.len() ==> img.pixels@[i] == blank(),
    {
        if width > MAX_SIDE || height > MAX_SIDE {
            return None;
        }
        assert(width * height <= 0x0800_0000 * 0x0800_0000) by (nonlinear_arith)
            requires
                width <= 0x0800_0000,
                height <= 0x0800_0000,
        ;
        let total: u64 = (width as u64) * (height as u64);
        if total > usize::MAX as u64 {
            return None;
        }
        let count: usize = total as usize;
        let mut pixels: Vec<Pixel> = Vec::new();
        let mut i: usize = 0;
        while i < count
            invariant
                i <= count,
                pixels@.len() == i,
                forall|k: int| 0 <= k < i ==> pixels@[k] == blank(),
            decreases count - i,
        {
            pixels.push(Pixel { r: 0, g: 0, b: 0, a: 0 });
            i += 1;
        }
        Some(Bitmap { width, height, pixels })
    }

    /// The image with the given pixels, row after row, or `None` where the
    /// count does not fit the sides or a side is above [`MAX_SIDE`].
    pub fn from_pixels(width: u32, height: u32, pixels: Vec<Pixel>) -> (r: Option<Bitmap>)
        ensures
            r is Some <==> width <= MAX_SIDE && height <= MAX_SIDE && pixels@.len() == width
                * height,
            r matches Some(img) ==> img.wf() && img.width == width && img.height == height
                && img.pixels@ == pixels@,
    {
        if width > MAX_SIDE || height > MAX_SIDE {
            return None;
        }
        assert(width * height <= 0x0800_0000 * 0x0800_0000) by (nonlinear_arith)
            requires
                width <= 0x0800_0000,
                height <= 0x0800_0000,
        ;
        let total: u64 = (width as u64) * (height as u64);
        if pixels.len() as u64 != total {
            return None;
        }
        Some(Bitmap { width, height, pixels })
    }

    /// The image with the given RGBA bytes, four per pixel, row after row.
    pub fn from_rgba(width: u32, height: u32, raw: &Vec<u8>) -> (r: Option<Bitmap>)
        ensures
            r is Some <==> width <= MAX_SIDE && height <= MAX_SIDE && raw@.len() == 4 * (width
                * height),
            r matches Some(img) ==> img.wf() && img.width == width && img.height == height
                && forall|i: int|
                0 <= i < img.pixels@.len() ==> #[trigger] img.pixels@[i] == (Pixel {
                    r: raw@[4 * i],
                    g: raw@[4 * i + 1],
                    b: raw@[4 * i + 2],
                    a: raw@[4 * i + 3],
                }),
    {
        if width > MAX_SIDE || height > MAX_SIDE {
            return None;
        }
        assert(width * height <= 0x0800_0000 * 0x0800_0000) by (nonlinear_arith)
            requires
                width <= 0x0800_0000,
                height <= 0x0800_0000,
        ;
        let total: u64 = (width as u64) * (height as u64);
        if raw.len() as u64 != 4 * total {
            return None;
        }
        let count: usize = (raw.len() / 4) as usize;
        let mut pixels: Vec<Pixel> = Vec::new();
        let mut i: usize = 0;
        while i < count
            invariant
                i <= count,
                raw@.len() == 4 * count,
                raw@.len() <= usize::MAX,
                pixels@.len() == i,
                forall|k: int|
                    0 <= k < i ==> #[trigger] pixels@[k] == (Pixel {
                        r: raw@[4 * k],
                        g: raw@[4 * k + 1],
                        b: raw@[4 * k + 2],
                        a: raw@[4 * k + 3],
                    }),
            decreases count - i,
        {
            pixels.push(
                Pixel { r: raw[4 * i], g: raw[4 * i + 1], b: raw[4 * i + 2], a: raw[4 * i + 3] },
            );
            i += 1;
        }
        Some(Bitmap { width, height, pixels })
    }

    /// The RGBA bytes of the image, four per pixel, row after row.
    pub fn to_rgba(&self) -> (raw: Vec<u8>)
        requires
            self.wf(),
        ensures
            raw@.len() == 4 * self.pixels@.len(),
            forall|i: int|
                0 <= i < self.pixels@.len() ==> #[trigger] self.pixels@[i] == (Pixel {
                    r: raw@[4 * i],
                    g: raw@[4 * i + 1],
                    b: raw@[4 * i + 2],
                    a: raw@[4 * i + 3],
                }),
    {
        let mut raw: Vec<u8> = Vec::new();
        let mut i: usize = 0;
        while i < self.pixels.len()
            invariant
                i <= self.pixels@.len(),
                raw@.len() == 4 * i,
                forall|k: int|
                    0 <= k < i ==> #[trigger] self.pixels@[k] == (Pixel {
                        r: raw@[4 * k],
                        g: raw@[4 * k + 1],
                        b: raw@[4 * k + 2],
                        a: raw@[4 * k + 3],
                    }),
            decreases self.pixels@.len() - i,
        {
            let p = self.pixels[i];
            raw.push(p.r);
            raw.push(p.g);
            raw.push(p.b);
            raw.push(p.a);
            i += 1;
        }
        raw
    }

    /// The width in pixels.
    pub fn width(&self) -> (w: u32)
        ensures
            w == self.width,
    {
        self.width
    }

    /// The height in pixels.
    pub fn height(&self) -> (h: u32)
        ensures
            h == self.height,
    {
        self.height
    }

    /// The place of cell `(x, y)` in the pixel vector.
    fn cell_index(&self, x: u32, y: u32) -> (i: usize)
        requires
            self.wf(),
            self.holds(x as int, y as int),
        ensures
            i == y * self.width + x,
            i < self.pixels@.len(),
    {
        proof {
            lemma_cell_index(x as int, y as int, self.width as int, self.height as int);
            assert(y * self.width <= 0x0800_0000 * 0x0800_0000) by (nonlinear_arith)
                requires
                    0 <= y <= 0x0800_0000,
                    0 <= self.width <= 0x0800_0000,
            ;
        }
        let len = self.pixels.len();
        let i: u64 = (y as u64) * (self.width as u64) + (x as u64);
        i as usize
    }

    /// The pixel of column `x` and row `y`.
    pub fn get_pixel(&self, x: u32, y: u32) -> (p: Pixel)
        requires
            self.wf(),
            self.holds(x as int, y as int),
        ensures
            p == self.px(x as int, y as int),
    {
        proof {
            reveal(Bitmap::px);
        }
        let i = self.cell_index(x, y);
        self.pixels[i]
    }

    /// Sets the pixel of column `x` and row `y`; every other pixel stays.
    pub fn put_pixel(&mut self, x: u32, y: u32, p: Pixel)
        requires
            old(self).wf(),
            old(self).holds(x as int, y as int),
        ensures
            final(self).wf(),
            final(self).width == old(self).width,
            final(self).height == old(self).height,
            final(self).pixels@ == old(self).pixels@.update(y * old(self).width + x, p),
    {
        let i = self.cell_index(x, y);
        self.pixels[i] = p;
    }

    /// The left edge of the part that [`Bitmap::crop`] cuts out.
    pub open spec fn crop_x(&self, x: u32) -> int {
        if x < self.width {
            x as int
        } else {
            self.width as int
        }
    }

    /// The top edge of the part that [`Bitmap::crop`] cuts out.
    pub open spec fn crop_y(&self, y: u32) -> int {
        if y < self.height {
            y as int
        } else {
            self.height as int
        }
    }

    /// The width of the part that [`Bitmap::crop`] cuts out.
    pub open spec fn crop_w(&self, x: u32, width: u32) -> int {
        if width < self.width - self.crop_x(x) {
            width as int
        } else {
            self.width - self.crop_x(x)
        }
    }

    /// The height of the part that [`Bitmap::crop`] cuts out.
    pub open spec fn crop_h(&self, y: u32, height: u32) -> int {
        if height < self.height - self.crop_y(y) {
            height as int
        } else {
            self.height - self.crop_y(y)
        }
    }

    /// The part of the image that starts at `(x, y)` and is `width` by
    /// `height` large, cut down to what lies inside the image.
    pub fn crop(&self, x: u32, y: u32, width: u32, height: u32) -> (r: Bitmap)
        requires
            self.wf(),
        ensures
            r.wf(),
            r.width == self.crop_w(x, width),
            r.height == self.crop_h(y, height),
            forall|i: int, j: int|
                r.holds(i, j) ==> #[trigger] r.px(i, j) == self.px(
                    self.crop_x(x) + i,
                    self.crop_y(y) + j,
                ),
    {
        let x0: u32 = if x < self.width { x } else { self.width };
        let y0: u32 = if y < self.height { y } else { self.height };
        let w: u32 = if width < self.width - x0 { width } else { self.width - x0 };
        let h: u32 = if height < self.height - y0 { height } else { self.height - y0 };
        let mut pixels: Vec<Pixel> = Vec::new();
        let mut j: u32 = 0;
        while j < h
            invariant
                self.wf(),
                j <= h,
                x0 + w <= self.width,
                y0 + h <= self.height,
                pixels@.len() == j * w,
                forall|a: int, b: int|
                    0 <= a < w && 0 <= b < j ==> #[trigger] pixels@[b * w + a] == self.px(
                        x0 + a,
                        y0 + b,
                    ),
            decreases h - j,
        {
            let mut i: u32 = 0;
            while i < w
                invariant
                    self.wf(),
                    i <= w,
                    j < h,
                    x0 + w <= self.width,
                    y0 + h <= self.height,
                    pixels@.len() == j * w + i,
                    forall|a: int, b: int|
                        0 <= a < w && 0 <= b < j ==> #[trigger] pixels@[b * w + a] == self.px(
                            x0 + a,
                            y0 + b,
                        ),
                    forall|a: int|
                        0 <= a < i ==> #[trigger] pixels@[j * w + a] == self.px(x0 + a, y0 + j),
                decreases w - i,
            {
                let p = self.get_pixel(x0 + i, y0 + j);
                let ghost before = pixels@;
                pixels.push(p);
                proof {
                    reveal(Bitmap::px);
                    assert forall|a: int, b: int| 0 <= a < w && 0 <= b < j implies #[trigger] pixels@[b
                        * w + a] == self.px(x0 + a, y0 + b) by {
                        lemma_cell_index(a, b, w as int, j as int);
                        assert(b * w + a < j * w);
                        assert(pixels@[b * w + a] == before[b * w + a]);
                    }
                }
                i += 1;
            }
            proof {
                assert((j + 1) * w == j * w + w) by (nonlinear_arith);
                assert forall|a: int, b: int| 0 <= a < w && 0 <= b < j + 1 implies #[trigger] pixels@[b
                    * w + a] == self.px(x0 + a, y0 + b) by {
                    if b == j {
                    }
                }
            }
            j += 1;
        }
        let r = Bitmap { width: w, height: h, pixels };
        proof {
            reveal(Bitmap::px);
            assert(h * w == w * h) by (nonlinear_arith);
            assert forall|i: int, j: int| r.holds(i, j) implies #[trigger] r.px(i, j) == self.px(
                self.crop_x(x) + i,
                self.crop_y(y) + j,
            ) by {
                assert(r.pixels@[j * w + i] == self.px(x0 + i, y0 + j));
            }
        }
        r
    }

    /// `other` fits into the image with its top left corner at `(x, y)`.
    pub open spec fn fits(&self, other: &Bitmap, x: u32, y: u32) -> bool {
        other.width + x <= self.width && other.height + y <= self.height
    }

    /// Copies `other` into the image with its top left corner at `(x, y)`.
    /// Where it does not fit, nothing is copied and the result is `false`.
    pub fn copy_from(&mut self, other: &Bitmap, x: u32, y: u32) -> (done: bool)
        requires
            old(self).wf(),
            other.wf(),
        ensures
            done == old(self).fits(other, x, y),
            final(self).wf(),
            final(self).width == old(self).width,
            final(self).height == old(self).height,
            !done ==> final(self).pixels@ == old(self).pixels@,
            done ==> forall|i: int, j: int|
                final(self).holds(i, j) ==> #[trigger] final(self).px(i, j) == (if x <= i < x
                    + other.width && y <= j < y + other.height {
                    other.px(i - x, j - y)
                } else {
                    old(self).px(i, j)
                }),
    {
        if (self.width as u64) < other.width as u64 + x as u64 || (self.height as u64)
            < other.height as u64 + y as u64 {
            return false;
        }
        let mut k: u32 = 0;
        while k < other.height
            invariant
                self.wf(),
                other.wf(),
                k <= other.height,
                self.width == old(self).width,
                self.height == old(self).height,
                other.width + x <= self.width,
                other.height + y <= self.height,
                forall|i: int, j: int|
                    self.holds(i, j) ==> #[trigger] self.px(i, j) == (if x <= i < x + other.width
                        && y <= j < y + k {
                        other.px(i - x, j - y)
                    } else {
                        old(self).px(i, j)
                    }),
            decreases other.height - k,
        {
            let mut i: u32 = 0;
            while i < other.width
                invariant
                    self.wf(),
                    other.wf(),
                    k < other.height,
                    i <= other.width,
                    self.width == old(self).width,
                    self.height == old(self).height,
                    other.width + x <= self.width,
                    other.height + y <= self.height,
                    forall|a: int, b: int|
                        self.holds(a, b) ==> #[trigger] self.px(a, b) == (if (x <= a < x
                            + other.width && y <= b < y + k) || (b == y + k && x <= a < x + i) {
                            other.px(a - x, b - y)
                        } else {
                            old(self).px(a, b)
                        }),
                decreases other.width - i,
            {
                let p = other.get_pixel(i, k);
                let ghost before = *self;
                self.put_pixel(i + x, k + y, p);
                proof {
                    reveal(Bitmap::px);
                    assert forall|a: int, b: int| self.holds(a, b) implies #[trigger] self.px(a, b)
                        == (if (x <= a < x + other.width && y <= b < y + k) || (b == y + k && x
                        <= a < x + i + 1) {
                        other.px(a - x, b - y)
                    } else {
                        old(self).px(a, b)
                    }) by {
                        lemma_cell_index(a, b, self.width as int, self.height as int);
                        lemma_cell_index(
                            (i + x) as int,
                            (k + y) as int,
                            self.width as int,
                            self.height as int,
                        );
                        if b * self.width + a == (k + y) * self.width + (i + x) {
                            lemma_cell_unique(
                                a,
                                b,
                                (i + x) as int,
                                (k + y) as int,
                                self.width as int,
                            );
                        } else {
                            assert(self.px(a, b) == before.px(a, b));
                        }
                    }
                }
                i += 1;
            }
            k += 1;
        }
        true
    }
}

} // verus!
