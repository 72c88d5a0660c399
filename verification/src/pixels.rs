//! Row-major 8-bit pixel buffers (RGB and RGBA) and the pixel operations of the
//! pipeline that need no floating point: filling and placing (borders, padding),
//! painting a rectangle, tinting a signature, and dropping the alpha channel.

use vstd::prelude::*;

verus! {

/// Byte `c` of pixel (`x`, `y`) in a row-major buffer of `w`-pixel rows with
/// `n` bytes per pixel.
pub open spec fn px_byte(data: Seq<u8>, n: nat, w: nat, x: int, y: int, c: int) -> u8 {
    data[n * (y * w + x) + c]
}

/// Pixels before (`x`, `y`) in row-major order come earlier in the buffer.
pub proof fn lemma_row_major_before(px: int, py: int, x: int, y: int, w: int)
    requires
        0 <= px < w,
        0 <= py,
        0 <= x,
        py < y || (py == y && px < x),
    ensures
        py * w + px < y * w + x,
{
    if py < y {
        assert(py * w + w <= y * w) by (nonlinear_arith)
            requires
                py < y,
                0 <= w,
        ;
    }
}

/// Distinct in-row positions are distinct pixels.
pub proof fn lemma_row_major_injective(px: int, py: int, x: int, y: int, w: int)
    requires
        0 <= px < w,
        0 <= x < w,
        0 <= py,
        0 <= y,
        py * w + px == y * w + x,
    ensures
        px == x && py == y,
{
    if py < y {
        lemma_row_major_before(px, py, x, y, w);
    } else if y < py {
        lemma_row_major_before(x, y, px, py, w);
    }
}

/// A pixel of a `w`x`h` image lies inside its `w*h` pixels.
pub proof fn lemma_pixel_in_bounds(x: int, y: int, w: int, h: int)
    requires
        0 <= x < w,
        0 <= y < h,
    ensures
        0 <= y * w + x < w * h,
        0 <= y * w,
{
    assert(y * w + w <= h * w && 0 <= y * w) by (nonlinear_arith)
        requires
            0 <= y < h,
            0 <= w,
    ;
    assert(h * w == w * h) by (nonlinear_arith);
}

/// The start of the next row.
pub proof fn lemma_next_row(y: int, w: int)
    ensures
        (y + 1) * w == y * w + w,
{
    assert((y + 1) * w == y * w + w) by (nonlinear_arith);
}

/// An RGB image: `width` x `height` pixels, three bytes each, row by row.
#[derive(Debug, Clone)]
pub struct RgbBuffer {
    width: u32,
    height: u32,
    data: Vec<u8>,
}

/// An RGBA image: `width` x `height` pixels, four bytes each, row by row.
#[derive(Debug, Clone)]
pub struct RgbaBuffer {
    width: u32,
    height: u32,
    data: Vec<u8>,
}

impl RgbBuffer {
    /// The byte count matches the dimensions.
    pub closed spec fn wf(&self) -> bool {
        self.data@.len() == 3 * (self.width * self.height)
    }

    pub closed spec fn w(&self) -> nat {
        self.width as nat
    }

    pub closed spec fn h(&self) -> nat {
        self.height as nat
    }

    pub closed spec fn bytes(&self) -> Seq<u8> {
        self.data@
    }

    /// A well-formed buffer holds three bytes per pixel.
    pub proof fn lemma_len(&self)
        ensures
            self.wf() <==> self.bytes().len() == 3 * (self.w() * self.h()),
    {
    }

    /// Channel `c` (0 red, 1 green, 2 blue) of pixel (`x`, `y`).
    pub open spec fn at(&self, x: int, y: int, c: int) -> u8 {
        px_byte(self.bytes(), 3, self.w(), x, y, c)
    }

    /// A `width` x `height` image of one color.
    pub fn from_pixel(width: u32, height: u32, color: [u8; 3]) -> (res: Self)
        requires
            3 * (width * height) <= usize::MAX,
        ensures
            res.wf(),
            res.w() == width,
            res.h() == height,
            forall|x: int, y: int, c: int|
                0 <= x < width && 0 <= y < height && 0 <= c < 3 ==> #[trigger] res.at(x, y, c)
                    == color[c],
    {
        let empty = RgbBuffer { width: 0, height: 0, data: Vec::new() };
        proof {
            assert(empty.wf());
        }
        place(&empty, width, height, 0, 0, color)
    }

    /// Wraps raw row-major RGB bytes; `None` when their count does not match.
    pub fn from_raw(width: u32, height: u32, data: Vec<u8>) -> (res: Option<Self>)
        ensures
            res is Some <==> data@.len() == 3 * (width * height),
            res matches Some(img) ==> img.wf() && img.w() == width && img.h() == height
                && img.bytes() == data@,
    {
        let n = data.len() as u128;
        proof {
            assert((width as u128) * (height as u128) <= 0xffff_ffff_ffff_ffffu128) by (nonlinear_arith)
                requires
                    width <= 0xffff_ffffu32,
                    height <= 0xffff_ffffu32,
            ;
        }
        if n == 3 * (width as u128 * height as u128) {
            Some(RgbBuffer { width, height, data })
        } else {
            None
        }
    }

    /// The raw row-major bytes.
    pub fn into_raw(self) -> (res: Vec<u8>)
        ensures
            res@ == self.bytes(),
    {
        self.data
    }

    pub fn as_raw(&self) -> (res: &Vec<u8>)
        ensures
            res@ == self.bytes(),
    {
        &self.data
    }

    pub fn width(&self) -> (res: u32)
        ensures
            res == self.w(),
    {
        self.width
    }

    pub fn height(&self) -> (res: u32)
        ensures
            res == self.h(),
    {
        self.height
    }

    pub fn dimensions(&self) -> (res: (u32, u32))
        ensures
            res.0 == self.w(),
            res.1 == self.h(),
    {
        (self.width, self.height)
    }

    /// The three channels of pixel (`x`, `y`).
    pub fn get_pixel(&self, x: u32, y: u32) -> (res: [u8; 3])
        requires
            self.wf(),
            x < self.w(),
            y < self.h(),
        ensures
            forall|c: int| 0 <= c < 3 ==> res[c] == self.at(x as int, y as int, c),
    {
        let len = self.data.len();
        proof {
            lemma_pixel_in_bounds(x as int, y as int, self.width as int, self.height as int);
        }
        let i = 3 * (y as usize * self.width as usize + x as usize);
        [self.data[i], self.data[i + 1], self.data[i + 2]]
    }
}

impl RgbaBuffer {
    /// The byte count matches the dimensions.
    pub closed spec fn wf(&self) -> bool {
        self.data@.len() == 4 * (self.width * self.height)
    }

    pub closed spec fn w(&self) -> nat {
        self.width as nat
    }

    pub closed spec fn h(&self) -> nat {
        self.height as nat
    }

    pub closed spec fn bytes(&self) -> Seq<u8> {
        self.data@
    }

    /// A well-formed buffer holds four bytes per pixel.
    pub proof fn lemma_len(&self)
        ensures
            self.wf() <==> self.bytes().len() == 4 * (self.w() * self.h()),
    {
    }

    /// Channel `c` (0 red, 1 green, 2 blue, 3 alpha) of pixel number `p`
    /// (row-major).
    pub open spec fn chan(&self, p: int, c: int) -> u8 {
        self.bytes()[4 * p + c]
    }

    /// Channel `c` of pixel (`x`, `y`).
    pub open spec fn at(&self, x: int, y: int, c: int) -> u8 {
        px_byte(self.bytes(), 4, self.w(), x, y, c)
    }

    /// Wraps raw row-major RGBA bytes; `None` when their count does not match.
    pub fn from_raw(width: u32, height: u32, data: Vec<u8>) -> (res: Option<Self>)
        ensures
            res is Some <==> data@.len() == 4 * (width * height),
            res matches Some(img) ==> img.wf() && img.w() == width && img.h() == height
                && img.bytes() == data@,
    {
        let n = data.len() as u128;
        proof {
            assert((width as u128) * (height as u128) <= 0xffff_ffff_ffff_ffffu128) by (nonlinear_arith)
                requires
                    width <= 0xffff_ffffu32,
                    height <= 0xffff_ffffu32,
            ;
        }
        if n == 4 * (width as u128 * height as u128) {
            Some(RgbaBuffer { width, height, data })
        } else {
            None
        }
    }

    /// The raw row-major bytes.
    pub fn into_raw(self) -> (res: Vec<u8>)
        ensures
            res@ == self.bytes(),
    {
        self.data
    }

    pub fn as_raw(&self) -> (res: &Vec<u8>)
        ensures
            res@ == self.bytes(),
    {
        &self.data
    }

    pub fn width(&self) -> (res: u32)
        ensures
            res == self.w(),
    {
        self.width
    }

    pub fn height(&self) -> (res: u32)
        ensures
            res == self.h(),
    {
        self.height
    }

    pub fn dimensions(&self) -> (res: (u32, u32))
        ensures
            res.0 == self.w(),
            res.1 == self.h(),
    {
        (self.width, self.height)
    }

    /// The four channels of pixel (`x`, `y`).
    pub fn get_pixel(&self, x: u32, y: u32) -> (res: [u8; 4])
        requires
            self.wf(),
            x < self.w(),
            y < self.h(),
        ensures
            forall|c: int| 0 <= c < 4 ==> res[c] == self.at(x as int, y as int, c),
    {
        let len = self.data.len();
        proof {
            lemma_pixel_in_bounds(x as int, y as int, self.width as int, self.height as int);
        }
        let i = 4 * (y as usize * self.width as usize + x as usize);
        [self.data[i], self.data[i + 1], self.data[i + 2], self.data[i + 3]]
    }
}

/// Pixel (`x`, `y`) of `img` placed at (`ox`, `oy`) on a canvas filled with
/// `fill`.
pub open spec fn placed_byte(img: RgbBuffer, ox: int, oy: int, fill: [u8; 3], x: int, y: int, c: int) -> u8 {
    if ox <= x < ox + img.w() && oy <= y < oy + img.h() {
        img.at(x - ox, y - oy, c)
    } else {
        fill[c]
    }
}

/// A `cw` x `ch` canvas of color `fill` with `img` copied onto it with its
/// top-left corner at (`ox`, `oy`).
pub fn place(img: &RgbBuffer, cw: u32, ch: u32, ox: u32, oy: u32, fill: [u8; 3]) -> (res: RgbBuffer)
    requires
        img.wf(),
        ox + img.w() <= cw,
        oy + img.h() <= ch,
        3 * (cw * ch) <= usize::MAX,
    ensures
        res.wf(),
        res.w() == cw,
        res.h() == ch,
        forall|x: int, y: int, c: int|
            0 <= x < cw && 0 <= y < ch && 0 <= c < 3 ==> #[trigger] res.at(x, y, c) == placed_byte(
                *img,
                ox as int,
                oy as int,
                fill,
                x,
                y,
                c,
            ),
{
    let mut out: Vec<u8> = Vec::new();
    let iw = img.width;
    let ih = img.height;
    let ilen = img.data.len();
    let mut y: u32 = 0;
    proof {
        lemma_pixel_in_bounds(0, 0, 1, 1);
    }
    while y < ch
        invariant
            img.wf(),
            iw == img.w(),
            ih == img.h(),
            ilen == img.data@.len(),
            ox + iw <= cw,
            oy + ih <= ch,
            3 * (cw * ch) <= usize::MAX,
            0 <= y <= ch,
            out@.len() == 3 * (y * cw),
            forall|px: int, py: int, c: int|
                0 <= px < cw && 0 <= py < y && 0 <= c < 3 ==> #[trigger] px_byte(out@, 3, cw as nat, px, py, c)
                    == placed_byte(*img, ox as int, oy as int, fill, px, py, c),
        decreases ch - y,
    {
        let mut x: u32 = 0;
        while x < cw
            invariant
                img.wf(),
                iw == img.w(),
                ih == img.h(),
                ilen == img.data@.len(),
                ox + iw <= cw,
                oy + ih <= ch,
                3 * (cw * ch) <= usize::MAX,
                0 <= y < ch,
                0 <= x <= cw,
                out@.len() == 3 * (y * cw + x),
                forall|px: int, py: int, c: int|
                    0 <= px < cw && 0 <= py && (py < y || (py == y && px < x)) && 0 <= c < 3
                        ==> #[trigger] px_byte(out@, 3, cw as nat, px, py, c) == placed_byte(
                        *img,
                        ox as int,
                        oy as int,
                        fill,
                        px,
                        py,
                        c,
                    ),
            decreases cw - x,
        {
            let ghost before = out@;
            let inside = ox <= x && x < ox + iw && oy <= y && y < oy + ih;
            if inside {
                let sx = x - ox;
                let sy = y - oy;
                proof {
                    lemma_pixel_in_bounds(sx as int, sy as int, iw as int, ih as int);
                }
                let i = 3 * (sy as usize * iw as usize + sx as usize);
                out.push(img.data[i]);
                out.push(img.data[i + 1]);
                out.push(img.data[i + 2]);
            } else {
                out.push(fill[0]);
                out.push(fill[1]);
                out.push(fill[2]);
            }
            proof {
                lemma_pixel_in_bounds(x as int, y as int, cw as int, ch as int);
                assert forall|px: int, py: int, c: int|
                    0 <= px < cw && 0 <= py && (py < y || (py == y && px < x + 1)) && 0 <= c < 3
                        implies #[trigger] px_byte(out@, 3, cw as nat, px, py, c) == placed_byte(
                        *img,
                        ox as int,
                        oy as int,
                        fill,
                        px,
                        py,
                        c,
                    ) by {
                    if py == y && px == x {
                        assert(px_byte(out@, 3, cw as nat, px, py, c) == out@[before.len() + c]);
                    } else {
                        lemma_row_major_before(px, py, x as int, y as int, cw as int);
                        assert(px_byte(out@, 3, cw as nat, px, py, c) == px_byte(
                            before,
                            3,
                            cw as nat,
                            px,
                            py,
                            c,
                        ));
                    }
                }
            }
            x = x + 1;
        }
        proof {
            lemma_next_row(y as int, cw as int);
        }
        y = y + 1;
    }
    assert(ch * cw == cw * ch) by (nonlinear_arith);
    RgbBuffer { width: cw, height: ch, data: out }
}

/// Paints the rectangle of columns `x0..x1` and rows `y0..y1` with `color`.
pub fn fill_rect(img: &mut RgbBuffer, x0: u32, x1: u32, y0: u32, y1: u32, color: [u8; 3])
    requires
        old(img).wf(),
        x1 <= old(img).w(),
        y1 <= old(img).h(),
    ensures
        final(img).wf(),
        final(img).w() == old(img).w(),
        final(img).h() == old(img).h(),
        forall|x: int, y: int, c: int|
            0 <= x < final(img).w() && 0 <= y < final(img).h() && 0 <= c < 3 ==> #[trigger] final(img).at(
                x,
                y,
                c,
            ) == if x0 <= x < x1 && y0 <= y < y1 {
                color[c]
            } else {
                old(img).at(x, y, c)
            },
{
    let w = img.width;
    let h = img.height;
    let ghost orig = img.data@;
    let len = img.data.len();
    let mut y: u32 = y0;
    while y < y1
        invariant
            img.width == w,
            img.height == h,
            img.data@.len() == orig.len(),
            orig.len() == 3 * (w * h),
            len == orig.len(),
            x1 <= w,
            y1 <= h,
            y0 <= y,
            forall|px: int, py: int, c: int|
                0 <= px < w && 0 <= py < h && 0 <= c < 3 ==> #[trigger] px_byte(img.data@, 3, w as nat, px, py, c)
                    == if x0 <= px < x1 && y0 <= py < y && py < y1 {
                    color[c]
                } else {
                    px_byte(orig, 3, w as nat, px, py, c)
                },
        decreases y1 - y,
    {
        let mut x: u32 = x0;
        while x < x1
            invariant
                img.width == w,
                img.height == h,
                img.data@.len() == orig.len(),
                orig.len() == 3 * (w * h),
                len == orig.len(),
                x1 <= w,
                y1 <= h,
                y0 <= y < y1,
                x0 <= x,
                forall|px: int, py: int, c: int|
                    0 <= px < w && 0 <= py < h && 0 <= c < 3 ==> #[trigger] px_byte(
                        img.data@,
                        3,
                        w as nat,
                        px,
                        py,
                        c,
                    ) == if x0 <= px < x1 && y0 <= py < y1 && (py < y || (py == y && px < x)) {
                        color[c]
                    } else {
                        px_byte(orig, 3, w as nat, px, py, c)
                    },
            decreases x1 - x,
        {
            proof {
                lemma_pixel_in_bounds(x as int, y as int, w as int, h as int);
            }
            let i = 3 * (y as usize * w as usize + x as usize);
            let ghost before = img.data@;
            img.data.set(i, color[0]);
            img.data.set(i + 1, color[1]);
            img.data.set(i + 2, color[2]);
            proof {
                assert forall|px: int, py: int, c: int|
                    0 <= px < w && 0 <= py < h && 0 <= c < 3 implies #[trigger] px_byte(
                        img.data@,
                        3,
                        w as nat,
                        px,
                        py,
                        c,
                    ) == if x0 <= px < x1 && y0 <= py < y1 && (py < y || (py == y && px < x + 1)) {
                        color[c]
                    } else {
                        px_byte(orig, 3, w as nat, px, py, c)
                    } by {
                    lemma_pixel_in_bounds(px, py, w as int, h as int);
                    if px == x && py == y {
                    } else {
                        if py * w + px == y * w + x {
                            lemma_row_major_injective(px, py, x as int, y as int, w as int);
                        }
                        assert(px_byte(img.data@, 3, w as nat, px, py, c) == px_byte(
                            before,
                            3,
                            w as nat,
                            px,
                            py,
                            c,
                        ));
                    }
                }
            }
            x = x + 1;
        }
        y = y + 1;
    }
}

/// The RGB part of an RGBA image (alpha dropped, colors kept as they are).
pub fn drop_alpha(img: &RgbaBuffer) -> (res: RgbBuffer)
    requires
        img.wf(),
    ensures
        res.wf(),
        res.w() == img.w(),
        res.h() == img.h(),
        forall|p: int, c: int|
            0 <= p < img.w() * img.h() && 0 <= c < 3 ==> #[trigger] res.bytes()[3 * p + c] == img.chan(p, c),
{
    let len = img.data.len();
    let n = img.width as usize * img.height as usize;
    let mut out: Vec<u8> = Vec::new();
    let mut p: usize = 0;
    while p < n
        invariant
            img.wf(),
            len == img.data@.len(),
            n == img.w() * img.h(),
            0 <= p <= n,
            out@.len() == 3 * p,
            forall|q: int, c: int| 0 <= q < p && 0 <= c < 3 ==> #[trigger] out@[3 * q + c] == img.chan(q, c),
        decreases n - p,
    {
        out.push(img.data[4 * p]);
        out.push(img.data[4 * p + 1]);
        out.push(img.data[4 * p + 2]);
        p = p + 1;
    }
    RgbBuffer { width: img.width, height: img.height, data: out }
}

/// A pixel after tinting: visible pixels take the color, alpha is kept.
pub open spec fn tinted_chan(img: RgbaBuffer, rgb: [u8; 3], p: int, c: int) -> u8 {
    if c < 3 && img.chan(p, 3) > 0 {
        rgb[c]
    } else {
        img.chan(p, c)
    }
}

/// Replaces the color of every pixel that is not fully transparent by `rgb`,
/// keeping each pixel's alpha, so that the anti-aliased edges of a signature
/// stay soft; fully transparent pixels are left as they are.
pub fn apply_tint(wm: RgbaBuffer, rgb: [u8; 3]) -> (res: RgbaBuffer)
    requires
        wm.wf(),
    ensures
        res.wf(),
        res.w() == wm.w(),
        res.h() == wm.h(),
        forall|p: int, c: int|
            0 <= p < wm.w() * wm.h() && 0 <= c < 4 ==> #[trigger] res.chan(p, c) == tinted_chan(wm, rgb, p, c),
        forall|p: int, c: int|
            0 <= p < wm.w() * wm.h() && 0 <= c < 3 && wm.chan(p, 3) > 0 ==> #[trigger] res.chan(p, c) == rgb[c],
        forall|p: int|
            0 <= p < wm.w() * wm.h() ==> #[trigger] res.chan(p, 3) == wm.chan(p, 3),
        forall|p: int, c: int|
            0 <= p < wm.w() * wm.h() && 0 <= c < 4 && wm.chan(p, 3) == 0 ==> #[trigger] res.chan(p, c) == wm.chan(
                p,
                c,
            ),
{
    let mut wm = wm;
    let ghost orig = wm;
    let len = wm.data.len();
    let n = wm.width as usize * wm.height as usize;
    let mut p: usize = 0;
    while p < n
        invariant
            len == wm.data@.len(),
            wm.width == orig.width,
            wm.height == orig.height,
            orig.wf(),
            wm.data@.len() == orig.data@.len(),
            n == orig.w() * orig.h(),
            0 <= p <= n,
            forall|q: int, c: int|
                0 <= q < n && 0 <= c < 4 ==> #[trigger] wm.data@[4 * q + c] == if q < p {
                    tinted_chan(orig, rgb, q, c)
                } else {
                    orig.chan(q, c)
                },
        decreases n - p,
    {
        if wm.data[4 * p + 3] > 0 {
            wm.data.set(4 * p, rgb[0]);
            wm.data.set(4 * p + 1, rgb[1]);
            wm.data.set(4 * p + 2, rgb[2]);
        }
        p = p + 1;
    }
    wm
}

} // verus!
