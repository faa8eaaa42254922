//! RGBA rasters and straight-alpha compositing onto opaque canvases.
use vstd::prelude::*;
use vstd::arithmetic::div_mod::lemma_fundamental_div_mod_converse;

verus! {

/// One 8-bit RGBA pixel.
#[derive(Clone, Copy, Debug, PartialEq, Eq, Structural)]
pub struct Rgba {
    pub r: u8,
    pub g: u8,
    pub b: u8,
    pub a: u8,
}

/// One channel of `src` over `dst` at opacity `a / 255`, truncated:
/// `(src * a + dst * (255 - a)) / 255`.
pub open spec fn blend_channel(src: int, dst: int, a: int) -> int {
    (src * a + dst * (255 - a)) / 255
}

/// `src` over an opaque `dst` with `src.a` as opacity; the result is opaque.
pub open spec fn blend(src: Rgba, dst: Rgba) -> Rgba {
    Rgba {
        r: blend_channel(src.r as int, dst.r as int, src.a as int) as u8,
        g: blend_channel(src.g as int, dst.g as int, src.a as int) as u8,
        b: blend_channel(src.b as int, dst.b as int, src.a as int) as u8,
        a: 255,
    }
}

proof fn lemma_blend_channel_range(s: int, d: int, a: int)
    requires
        0 <= s <= 255,
        0 <= d <= 255,
        0 <= a <= 255,
    ensures
        0 <= blend_channel(s, d, a) <= 255,
{
    assert(0 <= s * a + d * (255 - a) <= 255 * 255) by (nonlinear_arith)
        requires 0 <= s <= 255, 0 <= d <= 255, 0 <= a <= 255;
}

/// Blending at opacity zero leaves the destination's colour as it was, and at
/// full opacity the result is the source, channel for channel (both opaque).
pub proof fn lemma_blend_extremes(src: Rgba, dst: Rgba)
    ensures
        src.a == 0 ==> blend(src, dst) == (Rgba { a: 255, ..dst }),
        src.a == 255 ==> blend(src, dst) == src,
{
}

/// Blends one channel: `(src * a + dst * (255 - a)) / 255`.
pub fn blend_u8(src: u8, dst: u8, a: u8) -> (r: u8)
    ensures
        r == blend_channel(src as int, dst as int, a as int),
{
    proof {
        lemma_blend_channel_range(src as int, dst as int, a as int);
    }
    let v: u32 = (src as u32 * a as u32 + dst as u32 * (255 - a as u32)) / 255;
    v as u8
}

/// Blends `src` over `dst` with `src.a` as opacity, giving an opaque pixel.
pub fn blend_pixel(src: Rgba, dst: Rgba) -> (r: Rgba)
    ensures
        r == blend(src, dst),
{
    Rgba {
        r: blend_u8(src.r, dst.r, src.a),
        g: blend_u8(src.g, dst.g, src.a),
        b: blend_u8(src.b, dst.b, src.a),
        a: 255,
    }
}

/// A `width` x `height` image, its pixels row by row.
#[derive(Debug)]
pub struct Raster {
    pub width: usize,
    pub height: usize,
    pub pixels: Vec<Rgba>,
}

/// The pixel at column `x` and row `y` of a row-major buffer of width `w`.
pub open spec fn pixel_of(pixels: Seq<Rgba>, w: int, x: int, y: int) -> Rgba {
    pixels[y * w + x]
}

/// The index of column `x`, row `y` lies in the buffer and names no other pixel.
pub proof fn lemma_pixel_index(w: int, h: int, x: int, y: int)
    requires
        0 <= x < w,
        0 <= y < h,
    ensures
        0 <= y * w + x < w * h,
        (y * w + x) / w == y,
        (y * w + x) % w == x,
{
    lemma_fundamental_div_mod_converse(y * w + x, w, y, x);
    assert(0 <= y * w + x < w * h) by (nonlinear_arith)
        requires 0 <= x < w, 0 <= y < h;
}

/// A buffer of `w * h` pixels that agrees with `f` at every coordinate is the
/// sequence of `f` read row by row.
pub proof fn lemma_rows(pixels: Seq<Rgba>, w: int, h: int, f: spec_fn(int, int) -> Rgba)
    requires
        w >= 0,
        h >= 0,
        pixels.len() == w * h,
        forall|x: int, y: int| 0 <= x < w && 0 <= y < h ==> #[trigger] pixel_of(pixels, w, x, y) == f(x, y),
    ensures
        pixels == Seq::new((w * h) as nat, |i: int| f(i % w, i / w)),
{
    assert forall|i: int| 0 <= i < w * h implies pixels[i] == f(i % w, i / w) by {
        assert(w > 0) by (nonlinear_arith)
            requires 0 <= i < w * h, w >= 0, h >= 0;
        vstd::arithmetic::div_mod::lemma_fundamental_div_mod(i, w);
        let px = i % w;
        let py = i / w;
        assert(0 <= py < h) by (nonlinear_arith)
            requires py == i / w, 0 <= i < w * h, w > 0;
        assert(py * w + px == i) by (nonlinear_arith)
            requires i == w * (i / w) + i % w, py == i / w, px == i % w;
        assert(pixel_of(pixels, w, px, py) == f(px, py));
    }
    assert(pixels =~= Seq::new((w * h) as nat, |i: int| f(i % w, i / w)));
}

/// Distinct in-bounds coordinates have distinct indices.
pub proof fn lemma_pixel_index_distinct(w: int, h: int, x1: int, y1: int, x2: int, y2: int)
    requires
        0 <= x1 < w,
        0 <= y1 < h,
        0 <= x2 < w,
        0 <= y2 < h,
        x1 != x2 || y1 != y2,
    ensures
        y1 * w + x1 != y2 * w + x2,
{
    lemma_pixel_index(w, h, x1, y1);
    lemma_pixel_index(w, h, x2, y2);
}

/// What compositing `over` at `(x, y)` onto `base` leaves at `(px, py)`:
/// inside the overlay the blend of its pixel over the base, elsewhere the base.
pub open spec fn composite_at(base: Raster, over: Raster, x: int, y: int, px: int, py: int) -> Rgba {
    if x <= px < x + over.width && y <= py < y + over.height {
        blend(over.pixel(px - x, py - y), base.pixel(px, py))
    } else {
        base.pixel(px, py)
    }
}

/// The pixels, row by row, of a `w` x `h` base after compositing `over`
/// (`ow` x `oh`) with its top-left corner at `(x, y)`, clipped to the base.
pub open spec fn composite_pixels(base: Seq<Rgba>, w: int, h: int, over: Seq<Rgba>, ow: int, oh: int, x: int, y: int) -> Seq<Rgba> {
    Seq::new(
        (w * h) as nat,
        |i: int|
            {
                let px = i % w;
                let py = i / w;
                if x <= px < x + ow && y <= py < y + oh {
                    blend(pixel_of(over, ow, px - x, py - y), base[i])
                } else {
                    base[i]
                }
            },
    )
}

/// The bytes of a row-major pixel sequence, four per pixel in R, G, B, A order.
pub open spec fn rgba_bytes(pixels: Seq<Rgba>) -> Seq<u8>
    decreases pixels.len(),
{
    if pixels.len() == 0 {
        Seq::empty()
    } else {
        let p = pixels.last();
        rgba_bytes(pixels.drop_last()) + seq![p.r, p.g, p.b, p.a]
    }
}

/// Four bytes per pixel.
pub proof fn lemma_rgba_bytes_len(pixels: Seq<Rgba>)
    ensures
        rgba_bytes(pixels).len() == 4 * pixels.len(),
    decreases pixels.len(),
{
    if pixels.len() > 0 {
        lemma_rgba_bytes_len(pixels.drop_last());
    }
}

/// The pixels of a byte sequence read four bytes at a time.
pub open spec fn pixels_of_bytes(bytes: Seq<u8>) -> Seq<Rgba> {
    Seq::new(
        bytes.len() / 4,
        |i: int| Rgba { r: bytes[4 * i], g: bytes[4 * i + 1], b: bytes[4 * i + 2], a: bytes[4 * i + 3] },
    )
}

impl Raster {
    /// The buffer holds exactly `width * height` pixels.
    pub open spec fn wf(&self) -> bool {
        self.pixels@.len() == self.width * self.height
    }

    pub open spec fn pixel(&self, x: int, y: int) -> Rgba {
        pixel_of(self.pixels@, self.width as int, x, y)
    }

    /// A raster of one colour.
    pub fn filled(width: usize, height: usize, color: Rgba) -> (r: Raster)
        requires
            width * height <= usize::MAX,
        ensures
            r.wf(),
            r.width == width,
            r.height == height,
            forall|i: int| 0 <= i < r.pixels@.len() ==> r.pixels@[i] == color,
    {
        let n: usize = width * height;
        let mut pixels: Vec<Rgba> = Vec::with_capacity(n);
        let mut i: usize = 0;
        while i < n
            invariant
                i <= n,
                pixels@.len() == i,
                forall|j: int| 0 <= j < i ==> pixels@[j] == color,
            decreases n - i,
        {
            pixels.push(color);
            i += 1;
        }
        Raster { width, height, pixels }
    }

    /// Builds a raster from RGBA bytes, four per pixel, row by row. Fails where
    /// the length is not `width * height * 4`.
    pub fn from_rgba_bytes(width: usize, height: usize, bytes: &Vec<u8>) -> (r: Option<Raster>)
        ensures
            r.is_some() <==> bytes@.len() == width * height * 4,
            r.is_some() ==> r.unwrap().wf() && r.unwrap().width == width && r.unwrap().height == height
                && r.unwrap().pixels@ == pixels_of_bytes(bytes@),
    {
        let blen = bytes.len();
        let n = match width.checked_mul(height) {
            Some(v) => v,
            None => {
                proof {
                    assert(width * height * 4 >= width * height) by (nonlinear_arith)
                        requires width * height >= 0;
                }
                return None;
            }
        };
        let len = match n.checked_mul(4) {
            Some(v) => v,
            None => { return None; }
        };
        if blen != len {
            return None;
        }
        let mut pixels: Vec<Rgba> = Vec::with_capacity(n);
        let mut i: usize = 0;
        while i < n
            invariant
                n == width * height,
                bytes@.len() == n * 4,
                n * 4 <= usize::MAX,
                i <= n,
                pixels@ == pixels_of_bytes(bytes@).take(i as int),
            decreases n - i,
        {
            let p = Rgba { r: bytes[4 * i], g: bytes[4 * i + 1], b: bytes[4 * i + 2], a: bytes[4 * i + 3] };
            pixels.push(p);
            i += 1;
            proof {
                assert(pixels@ =~= pixels_of_bytes(bytes@).take(i as int));
            }
        }
        proof {
            assert(pixels@ =~= pixels_of_bytes(bytes@));
        }
        Some(Raster { width, height, pixels })
    }

    /// The pixels as RGBA bytes, four per pixel, row by row.
    pub fn to_rgba_bytes(&self) -> (r: Vec<u8>)
        requires
            self.pixels@.len() * 4 <= usize::MAX,
        ensures
            r@ == rgba_bytes(self.pixels@),
    {
        let mut out: Vec<u8> = Vec::new();
        let mut i: usize = 0;
        while i < self.pixels.len()
            invariant
                i <= self.pixels@.len(),
                out@ == rgba_bytes(self.pixels@.take(i as int)),
            decreases self.pixels@.len() - i,
        {
            let p = self.pixels[i];
            out.push(p.r);
            out.push(p.g);
            out.push(p.b);
            out.push(p.a);
            proof {
                assert(self.pixels@.take(i + 1).drop_last() =~= self.pixels@.take(i as int));
                assert(out@ =~= rgba_bytes(self.pixels@.take(i as int)) + seq![p.r, p.g, p.b, p.a]);
            }
            i += 1;
        }
        proof {
            assert(self.pixels@.take(i as int) =~= self.pixels@);
        }
        out
    }

    /// Reads the pixel at column `x`, row `y`.
    pub fn get(&self, x: usize, y: usize) -> (r: Rgba)
        requires
            self.wf(),
            x < self.width,
            y < self.height,
        ensures
            r == self.pixel(x as int, y as int),
    {
        proof {
            lemma_pixel_index(self.width as int, self.height as int, x as int, y as int);
        }
        let _n = self.pixels.len();
        self.pixels[y * self.width + x]
    }

    /// Writes the pixel at column `x`, row `y`; every other pixel stays.
    pub fn put(&mut self, x: usize, y: usize, p: Rgba)
        requires
            old(self).wf(),
            x < old(self).width,
            y < old(self).height,
        ensures
            final(self).wf(),
            final(self).width == old(self).width,
            final(self).height == old(self).height,
            final(self).pixel(x as int, y as int) == p,
            forall|px: int, py: int|
                0 <= px < old(self).width && 0 <= py < old(self).height && (px != x || py != y)
                    ==> #[trigger] final(self).pixel(px, py) == old(self).pixel(px, py),
    {
        proof {
            lemma_pixel_index(self.width as int, self.height as int, x as int, y as int);
        }
        let _n = self.pixels.len();
        let i = y * self.width + x;
        self.pixels.set(i, p);
        proof {
            assert forall|px: int, py: int|
                0 <= px < old(self).width && 0 <= py < old(self).height && (px != x || py != y)
                implies #[trigger] self.pixel(px, py) == old(self).pixel(px, py) by {
                lemma_pixel_index(self.width as int, self.height as int, px, py);
                lemma_pixel_index_distinct(self.width as int, self.height as int, px, py, x as int, y as int);
            }
        }
    }
}

impl Raster {
    /// Blends `over` onto this raster with its top-left corner at `(x, y)`.
    /// Pixels of `over` that fall outside this raster are clipped.
    pub fn composite(&mut self, over: &Raster, x: usize, y: usize)
        requires
            old(self).wf(),
            over.wf(),
        ensures
            final(self).wf(),
            final(self).width == old(self).width,
            final(self).height == old(self).height,
            forall|px: int, py: int|
                0 <= px < old(self).width && 0 <= py < old(self).height
                    ==> #[trigger] final(self).pixel(px, py)
                        == composite_at(*old(self), *over, x as int, y as int, px, py),
            final(self).pixels@ == composite_pixels(
                old(self).pixels@,
                old(self).width as int,
                old(self).height as int,
                over.pixels@,
                over.width as int,
                over.height as int,
                x as int,
                y as int,
            ),
    {
        self.composite_pointwise(over, x, y);
        proof {
            let w = self.width as int;
            let h = self.height as int;
            let target = composite_pixels(old(self).pixels@, w, h, over.pixels@, over.width as int, over.height as int, x as int, y as int);
            assert forall|i: int| 0 <= i < w * h implies self.pixels@[i] == target[i] by {
                let px = i % w;
                let py = i / w;
                assert(w > 0) by (nonlinear_arith)
                    requires 0 <= i < w * h, w >= 0, h >= 0;
                vstd::arithmetic::div_mod::lemma_fundamental_div_mod(i, w);
                assert(0 <= px < w);
                assert(0 <= py < h) by (nonlinear_arith)
                    requires py == i / w, 0 <= i < w * h, w > 0;
                lemma_pixel_index(w, h, px, py);
                assert(py * w + px == i) by (nonlinear_arith)
                    requires i == w * (i / w) + i % w, py == i / w, px == i % w;
                assert(self.pixel(px, py) == composite_at(*old(self), *over, x as int, y as int, px, py));
            }
            assert(self.pixels@ =~= target);
        }
    }

    fn composite_pointwise(&mut self, over: &Raster, x: usize, y: usize)
        requires
            old(self).wf(),
            over.wf(),
        ensures
            final(self).wf(),
            final(self).width == old(self).width,
            final(self).height == old(self).height,
            forall|px: int, py: int|
                0 <= px < old(self).width && 0 <= py < old(self).height
                    ==> #[trigger] final(self).pixel(px, py)
                    == composite_at(*old(self), *over, x as int, y as int, px, py),
    {
        let ghost base = *self;
        if x >= self.width || y >= self.height {
            return;
        }
        let cols: usize = if over.width < self.width - x { over.width } else { self.width - x };
        let rows: usize = if over.height < self.height - y { over.height } else { self.height - y };
        let mut oy: usize = 0;
        while oy < rows
            invariant
                base.wf(),
                self.wf(),
                over.wf(),
                self.width == base.width,
                self.height == base.height,
                x < self.width,
                y < self.height,
                cols <= over.width,
                cols == over.width || cols == self.width - x,
                cols <= self.width - x,
                rows <= self.height - y,
                rows <= over.height,
                rows == over.height || rows == self.height - y,
                oy <= rows,
                forall|px: int, py: int|
                    0 <= px < base.width && 0 <= py < base.height
                        ==> #[trigger] self.pixel(px, py) == (if py < y + oy {
                            composite_at(base, *over, x as int, y as int, px, py)
                        } else {
                            base.pixel(px, py)
                        }),
            decreases rows - oy,
        {
            let mut ox: usize = 0;
            while ox < cols
                invariant
                    base.wf(),
                    self.wf(),
                    over.wf(),
                    self.width == base.width,
                    self.height == base.height,
                    x < self.width,
                    y < self.height,
                    cols <= over.width,
                    cols == over.width || cols == self.width - x,
                    cols <= self.width - x,
                    rows <= self.height - y,
                    rows <= over.height,
                    oy < rows,
                    ox <= cols,
                    forall|px: int, py: int|
                        0 <= px < base.width && 0 <= py < base.height
                            ==> #[trigger] self.pixel(px, py) == (if py < y + oy || (py == y + oy && px < x
                                + ox) {
                                composite_at(base, *over, x as int, y as int, px, py)
                            } else {
                                base.pixel(px, py)
                            }),
                decreases cols - ox,
            {
                let src = over.get(ox, oy);
                let dst = self.get(x + ox, y + oy);
                let b = blend_pixel(src, dst);
                self.put(x + ox, y + oy, b);
                ox += 1;
            }
            oy += 1;
        }
    }
}

} // verus!
