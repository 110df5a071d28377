use vstd::prelude::*;

verus! {

/// An immutable 2D grid of RGB pixels: three bytes per pixel, row-major,
/// channels interleaved (red, green, blue).
pub struct Raster {
    pub width: u32,
    pub height: u32,
    pub pixels: Vec<u8>,
}

/// The flat buffer index of channel `c` of the pixel at column `x`, row `y`
/// of a raster `w` pixels wide.
pub open spec fn pix_index(w: int, x: int, y: int, c: int) -> int {
    3 * (y * w + x) + c
}

impl Raster {
    /// Well-formed: the pixel buffer holds exactly three bytes per pixel.
    pub open spec fn wf(&self) -> bool {
        self.pixels@.len() == 3 * (self.width as int) * (self.height as int)
    }

    /// Channel `c` (0 = red, 1 = green, 2 = blue) of the pixel at column `x`,
    /// row `y`.
    pub open spec fn pix(&self, x: int, y: int, c: int) -> u8 {
        self.pixels@[pix_index(self.width as int, x, y, c)]
    }

    /// Builds a raster, checking that the buffer length matches the
    /// dimensions.
    pub fn new(width: u32, height: u32, pixels: Vec<u8>) -> (out: Option<Raster>)
        ensures
            match out {
                Some(r) => {
                    &&& r.width == width
                    &&& r.height == height
                    &&& r.pixels@ == pixels@
                    &&& r.wf()
                },
                None => pixels@.len() != 3 * (width as int) * (height as int),
            },
    {
        proof {
            assert(0 <= 3 * (width as int) * (height as int) < 0x10_0000_0000_0000_0000)
                by (nonlinear_arith)
                requires
                    0 <= (width as int) < 0x1_0000_0000,
                    0 <= (height as int) < 0x1_0000_0000,
            ;
        }
        let expect: u128 = 3u128 * (width as u128) * (height as u128);
        if (pixels.len() as u128) == expect {
            Some(Raster { width, height, pixels })
        } else {
            None
        }
    }

    pub fn width(&self) -> (w: u32)
        ensures
            w == self.width,
    {
        self.width
    }

    pub fn height(&self) -> (h: u32)
        ensures
            h == self.height,
    {
        self.height
    }

    /// Reads one channel of one pixel.
    pub fn get(&self, x: u32, y: u32, c: u32) -> (v: u8)
        requires
            self.wf(),
            x < self.width,
            y < self.height,
            c < 3,
        ensures
            v == self.pix(x as int, y as int, c as int),
    {
        proof {
            lemma_pix_index_bound(self.width as int, self.height as int, x as int, y as int, c as int);
        }
        let n = self.pixels.len();
        let w = self.width as usize;
        let idx: usize = 3 * ((y as usize) * w + (x as usize)) + (c as usize);
        self.pixels[idx]
    }

    /// Crops rows `[y0, y1)`, keeping the full width.  Every pixel of the
    /// result equals the corresponding pixel of the source, shifted down by
    /// `y0` rows.
    pub fn crop_rows(&self, y0: u32, y1: u32) -> (out: Raster)
        requires
            self.wf(),
            y0 <= y1,
            y1 <= self.height,
        ensures
            out.wf(),
            out.width == self.width,
            out.height == y1 - y0,
            out.pixels@ == self.pixels@.subrange(
                3 * (y0 as int) * (self.width as int),
                3 * (y1 as int) * (self.width as int),
            ),
            forall|x: int, y: int, c: int|
                0 <= x < self.width && 0 <= y < y1 - y0 && 0 <= c < 3 ==> out.pix(x, y, c)
                    == self.pix(x, y + y0, c),
    {
        proof {
            lemma_row_starts_ordered(
                self.width as int,
                self.height as int,
                y0 as int,
                y1 as int,
            );
        }
        let n = self.pixels.len();
        let w = self.width as usize;
        let start: usize = 3 * ((y0 as usize) * w);
        let end: usize = 3 * ((y1 as usize) * w);
        let mut px: Vec<u8> = Vec::new();
        let mut i: usize = start;
        while i < end
            invariant
                start <= i <= end,
                end <= self.pixels@.len(),
                px@ == self.pixels@.subrange(start as int, i as int),
            decreases end - i,
        {
            px.push(self.pixels[i]);
            i = i + 1;
            proof {
                assert(px@ =~= self.pixels@.subrange(start as int, i as int));
            }
        }
        let out = Raster { width: self.width, height: y1 - y0, pixels: px };
        proof {
            lemma_crop_correct(self, &out, y0 as int, y1 as int);
        }
        out
    }
}

/// Pixel indices of a row inside the raster stay inside the buffer.
proof fn lemma_pix_index_bound(w: int, h: int, x: int, y: int, c: int)
    by (nonlinear_arith)
    requires
        0 <= x < w,
        0 <= y < h,
        0 <= c < 3,
    ensures
        0 <= y * w + x < w * h,
        0 <= pix_index(w, x, y, c) < 3 * w * h,
{
}

/// The byte offsets of row starts grow with the row number.
proof fn lemma_row_starts_ordered(w: int, h: int, y0: int, y1: int)
    by (nonlinear_arith)
    requires
        0 <= w,
        0 <= y0 <= y1 <= h,
    ensures
        0 <= y0 * w <= y1 * w <= w * h,
        3 * (y0 * w) == 3 * y0 * w,
        3 * (y1 * w) == 3 * y1 * w,
        3 * (w * h) == 3 * w * h,
        0 <= 3 * y0 * w <= 3 * y1 * w <= 3 * w * h,
        3 * y1 * w - 3 * y0 * w == 3 * (y1 - y0) * w,
{
}

/// A cropped raster is well formed and its pixels match the source.
proof fn lemma_crop_correct(src: &Raster, out: &Raster, y0: int, y1: int)
    requires
        src.wf(),
        0 <= y0 <= y1 <= src.height,
        out.width == src.width,
        out.height == y1 - y0,
        out.pixels@ == src.pixels@.subrange(
            3 * y0 * (src.width as int),
            3 * y1 * (src.width as int),
        ),
    ensures
        out.wf(),
        forall|x: int, y: int, c: int|
            0 <= x < src.width && 0 <= y < y1 - y0 && 0 <= c < 3 ==> out.pix(x, y, c) == src.pix(
                x,
                y + y0,
                c,
            ),
{
    let w = src.width as int;
    lemma_row_starts_ordered(w, src.height as int, y0, y1);
    assert(out.pixels@.len() == 3 * (y1 - y0) * w);
    assert(3 * (y1 - y0) * w == 3 * w * (y1 - y0)) by (nonlinear_arith);
    assert forall|x: int, y: int, c: int|
        0 <= x < src.width && 0 <= y < y1 - y0 && 0 <= c < 3 implies out.pix(x, y, c) == src.pix(
        x,
        y + y0,
        c,
    ) by {
        lemma_pix_index_bound(w, y1 - y0, x, y, c);
        assert(3 * (y1 - y0) * w == 3 * w * (y1 - y0)) by (nonlinear_arith);
        assert(3 * y0 * w + pix_index(w, x, y, c) == pix_index(w, x, y + y0, c))
            by (nonlinear_arith);
    }
}

} // verus!
