//! Text, barcode and QR stamps: their geometry in the unscaled template's
//! space, their layout at a ticket's size, and the rasters they draw.
use vstd::prelude::*;
use crate::raster::{Rgba, Raster, blend, pixel_of, rgba_bytes, pixels_of_bytes, composite_pixels, lemma_pixel_index, lemma_rows};
use crate::outside::{
    QrLevel, QrGrid, qr_encode, qr_modules_of, resize_rgba, resized_of, css_color, css_color_of, font_parses,
    text_extent, text_extent_of, glyph_coverage, glyph_coverage_of,
};
use crate::template::{resolve, record_view, resolve_template};

verus! {

/// A text stamp. `(x, y)` is the anchor point in the unscaled template.
#[derive(Debug)]
pub struct TextStamp {
    pub id: String,
    pub x: u32,
    pub y: u32,
    pub width: u32,
    pub height: u32,
    pub template: String,
    pub font_family: String,
    pub font_size: u32,
    pub color: String,
    pub alignment: String,
    pub vertical_align: Option<String>,
    pub auto_size: Option<bool>,
}

/// A barcode stamp: a rectangle in the unscaled template.
#[derive(Debug)]
pub struct BarcodeStamp {
    pub id: String,
    pub x: u32,
    pub y: u32,
    pub width: u32,
    pub height: u32,
    pub template: String,
    pub format: String,
}

/// A QR stamp: its top-left corner and side in the unscaled template.
#[derive(Debug)]
pub struct QrCodeStamp {
    pub id: String,
    pub x: u32,
    pub y: u32,
    pub width: u32,
    pub height: u32,
    pub template: String,
    pub error_correction: String,
}

/// One data-driven overlay of a ticket.
#[derive(Debug)]
pub enum Stamp {
    Text(TextStamp),
    Barcode(BarcodeStamp),
    QrCode(QrCodeStamp),
}

/// Horizontal placement of text relative to its anchor.
#[derive(Clone, Copy, Debug, PartialEq, Eq, Structural)]
pub enum HAlign {
    Left,
    Center,
    Right,
}

/// Vertical placement of text relative to its anchor.
#[derive(Clone, Copy, Debug, PartialEq, Eq, Structural)]
pub enum VAlign {
    Top,
    Middle,
    Bottom,
}

pub open spec fn h_align_of(s: Seq<char>) -> HAlign {
    if s == "center"@ {
        HAlign::Center
    } else if s == "right"@ {
        HAlign::Right
    } else {
        HAlign::Left
    }
}

pub open spec fn v_align_of(s: Option<Seq<char>>) -> VAlign {
    if s == Some("middle"@) {
        VAlign::Middle
    } else if s == Some("bottom"@) {
        VAlign::Bottom
    } else {
        VAlign::Top
    }
}

pub open spec fn qr_level_of(s: Seq<char>) -> QrLevel {
    if s == "L"@ {
        QrLevel::L
    } else if s == "Q"@ {
        QrLevel::Q
    } else if s == "H"@ {
        QrLevel::H
    } else {
        QrLevel::M
    }
}

/// Whether two strings hold the same characters.
pub fn same_text(a: &str, b: &str) -> (r: bool)
    ensures
        r == (a@ == b@),
{
    let n = a.unicode_len();
    if n != b.unicode_len() {
        return false;
    }
    let mut i: usize = 0;
    while i < n
        invariant
            n == a@.len(),
            n == b@.len(),
            i <= n,
            forall|j: int| 0 <= j < i ==> a@[j] == b@[j],
        decreases n - i,
    {
        if a.get_char(i) != b.get_char(i) {
            return false;
        }
        i += 1;
    }
    proof {
        assert(a@ =~= b@);
    }
    true
}

/// Reads `"center"` and `"right"`; anything else is left alignment.
pub fn parse_h_align(s: &str) -> (r: HAlign)
    ensures
        r == h_align_of(s@),
{
    if same_text(s, "center") {
        HAlign::Center
    } else if same_text(s, "right") {
        HAlign::Right
    } else {
        HAlign::Left
    }
}

/// Reads `"middle"` and `"bottom"`; anything else, or nothing, is top.
pub fn parse_v_align(s: &Option<String>) -> (r: VAlign)
    ensures
        r == v_align_of(
            match s {
                Some(t) => Some(t@),
                None => None,
            },
        ),
{
    match s {
        Some(t) => {
            if same_text(t.as_str(), "middle") {
                VAlign::Middle
            } else if same_text(t.as_str(), "bottom") {
                VAlign::Bottom
            } else {
                VAlign::Top
            }
        },
        None => VAlign::Top,
    }
}

/// Reads `"L"`, `"M"`, `"Q"` and `"H"`; anything else is `M`.
pub fn parse_qr_level(s: &str) -> (r: QrLevel)
    ensures
        r == qr_level_of(s@),
{
    if same_text(s, "L") {
        QrLevel::L
    } else if same_text(s, "Q") {
        QrLevel::Q
    } else if same_text(s, "H") {
        QrLevel::H
    } else {
        QrLevel::M
    }
}

/// The top-left corner of text of size `w` x `h` placed at the anchor
/// `(ax, ay)`: left, centre and right put the anchor at the left edge, the
/// middle and the right edge; top, middle and bottom likewise vertically.
pub open spec fn text_origin_of(ax: int, ay: int, ha: HAlign, va: VAlign, w: int, h: int) -> (int, int) {
    let x = match ha {
        HAlign::Left => ax,
        HAlign::Center => ax - w / 2,
        HAlign::Right => ax - w,
    };
    let y = match va {
        VAlign::Top => ay,
        VAlign::Middle => ay - h / 2,
        VAlign::Bottom => ay - h,
    };
    (x, y)
}

/// Where text of the measured size starts, relative to its anchor.
pub fn text_origin(ax: i64, ay: i64, ha: HAlign, va: VAlign, w: u32, h: u32) -> (r: (i64, i64))
    requires
        -0x1_0000_0000_0000 <= ax <= 0x1_0000_0000_0000,
        -0x1_0000_0000_0000 <= ay <= 0x1_0000_0000_0000,
    ensures
        (r.0 as int, r.1 as int) == text_origin_of(ax as int, ay as int, ha, va, w as int, h as int),
{
    let x = match ha {
        HAlign::Left => ax,
        HAlign::Center => ax - (w / 2) as i64,
        HAlign::Right => ax - w as i64,
    };
    let y = match va {
        VAlign::Top => ay,
        VAlign::Middle => ay - (h / 2) as i64,
        VAlign::Bottom => ay - h as i64,
    };
    (x, y)
}

/// `v` scaled by `num / den`, rounded down.
pub open spec fn scale_floor(v: int, num: int, den: int) -> int {
    v * num / den
}

/// Scales a template coordinate by `num / den` (target over template
/// dimension), rounding down.
pub fn scale_coord(v: u32, num: u32, den: u32) -> (r: u64)
    requires
        den > 0,
    ensures
        r == scale_floor(v as int, num as int, den as int),
{
    proof {
        assert(v * num <= 0xffff_ffff * 0xffff_ffff) by (nonlinear_arith)
            requires v <= 0xffff_ffff, num <= 0xffff_ffff;
        assert((v * num) / (den as int) <= v * num) by (nonlinear_arith)
            requires v * num >= 0, den >= 1;
    }
    (v as u64 * num as u64) / den as u64
}

/// The largest font size, in pixels, that is handed to the rasterizer.
pub const MAX_FONT_PX: u16 = 65535;

/// The font size scaled by the mean of the two axis factors,
/// `size * (tw / w0 + th / h0) / 2`, rounded, and capped at `MAX_FONT_PX`.
pub open spec fn font_px_of(size: int, tw: int, th: int, w0: int, h0: int) -> int {
    let v = (2 * (size * (tw * h0 + th * w0)) + 2 * (w0 * h0)) / (4 * (w0 * h0));
    if v > MAX_FONT_PX { MAX_FONT_PX as int } else { v }
}

/// The text stamp's font size at the ticket's size.
pub fn scaled_font_px(size: u32, tw: u32, th: u32, w0: u32, h0: u32) -> (r: u16)
    requires
        w0 > 0,
        h0 > 0,
    ensures
        r == font_px_of(size as int, tw as int, th as int, w0 as int, h0 as int),
{
    let m: u64 = 0xffff_ffff;
    proof {
        assert(tw * h0 + th * w0 <= 2 * m * m) by (nonlinear_arith)
            requires tw <= m, h0 <= m, th <= m, w0 <= m;
        assert(size * (tw * h0 + th * w0) <= m * (2 * m * m)) by (nonlinear_arith)
            requires size <= m, 0 <= tw * h0 + th * w0 <= 2 * m * m;
        assert(w0 * h0 <= m * m) by (nonlinear_arith)
            requires w0 <= m, h0 <= m;
        assert(1 <= w0 * h0) by (nonlinear_arith)
            requires w0 >= 1, h0 >= 1;
    }
    let sum: u128 = tw as u128 * h0 as u128 + th as u128 * w0 as u128;
    let area: u128 = w0 as u128 * h0 as u128;
    let v: u128 = (2 * (size as u128 * sum) + 2 * area) / (4 * area);
    if v > MAX_FONT_PX as u128 { MAX_FONT_PX } else { v as u16 }
}

/// Opaque black, the colour of text whose colour string does not parse.
pub open spec fn black() -> Rgba {
    Rgba { r: 0, g: 0, b: 0, a: 255 }
}

pub open spec fn white() -> Rgba {
    Rgba { r: 255, g: 255, b: 255, a: 255 }
}

/// The width of one bar of the placeholder barcode: a twentieth of the
/// rectangle, at least one pixel.
pub open spec fn bar_width(w: int) -> int {
    if w / 20 >= 1 { w / 20 } else { 1 }
}

/// Column `x` of the placeholder barcode is dark: it lies in one of the ten
/// bars, each one bar width wide and one bar width apart, from the left edge.
pub open spec fn bar_dark(x: int, w: int) -> bool {
    &&& (x / bar_width(w)) % 2 == 0
    &&& x / bar_width(w) <= 18
}

/// The `w` x `h` top-left part of the placeholder barcode of width `full_w`,
/// row by row.
pub open spec fn bar_pixels(full_w: int, w: int, h: int) -> Seq<Rgba> {
    Seq::new((w * h) as nat, |i: int| bar_color(i % w, full_w))
}

/// The placeholder barcode pixel at column `x`.
pub open spec fn bar_color(x: int, w: int) -> Rgba {
    if bar_dark(x, w) { black() } else { white() }
}

/// The placeholder symbol for a barcode `full_w` pixels wide: ten vertical
/// black bars on white, of which the `w` x `h` top-left part is drawn. It
/// stands where an encoder's symbol would.
pub fn barcode_pattern(full_w: u64, w: usize, h: usize) -> (r: Raster)
    requires
        w * h <= usize::MAX,
    ensures
        r.wf(),
        r.width == w,
        r.height == h,
        r.pixels@ == bar_pixels(full_w as int, w as int, h as int),
{
    let bw: u64 = if full_w / 20 >= 1 { full_w / 20 } else { 1 };
    let mut pixels: Vec<Rgba> = Vec::new();
    let mut y: usize = 0;
    while y < h
        invariant
            w * h <= usize::MAX,
            bw == bar_width(full_w as int),
            y <= h,
            pixels@.len() == y * w,
            forall|px: int, py: int| 0 <= px < w && 0 <= py < y ==> #[trigger] pixel_of(pixels@, w as int, px, py) == bar_color(px, full_w as int),
        decreases h - y,
    {
        let mut x: usize = 0;
        proof {
            assert(y * w + w <= w * h) by (nonlinear_arith)
                requires y < h, w >= 0;
        }
        while x < w
            invariant
                w * h <= usize::MAX,
                y * w + w <= w * h,
                bw == bar_width(full_w as int),
                y < h,
                x <= w,
                pixels@.len() == y * w + x,
                forall|px: int, py: int| 0 <= px < w && 0 <= py < y ==> #[trigger] pixel_of(pixels@, w as int, px, py) == bar_color(px, full_w as int),
                forall|px: int| 0 <= px < x ==> #[trigger] pixel_of(pixels@, w as int, px, y as int) == bar_color(px, full_w as int),
            decreases w - x,
        {
            let q = x as u64 / bw;
            let c = if q % 2 == 0 && q <= 18 {
                Rgba { r: 0, g: 0, b: 0, a: 255 }
            } else {
                Rgba { r: 255, g: 255, b: 255, a: 255 }
            };
            let ghost before = pixels@;
            pixels.push(c);
            proof {
                assert forall|px: int, py: int| 0 <= px < w && 0 <= py < y implies #[trigger] pixel_of(pixels@, w as int, px, py) == bar_color(px, full_w as int) by {
                    lemma_pixel_index(w as int, y as int, px, py);
                    assert(w * y == y * w) by (nonlinear_arith);
                    assert(pixel_of(before, w as int, px, py) == bar_color(px, full_w as int));
                }
                assert forall|px: int| 0 <= px < x + 1 implies #[trigger] pixel_of(pixels@, w as int, px, y as int) == bar_color(px, full_w as int) by {
                    if px < x {
                        assert(pixel_of(before, w as int, px, y as int) == bar_color(px, full_w as int));
                    }
                }
            }
            x += 1;
        }
        proof {
            assert forall|px: int, py: int| 0 <= px < w && 0 <= py < y + 1 implies #[trigger] pixel_of(pixels@, w as int, px, py) == bar_color(px, full_w as int) by {
                if py == y {
                    assert(pixel_of(pixels@, w as int, px, y as int) == bar_color(px, full_w as int));
                }
            }
            assert(pixels@.len() == (y + 1) * w) by (nonlinear_arith)
                requires pixels@.len() == y * w + w;
        }
        y += 1;
    }
    proof {
        assert(pixels@.len() == w * h) by (nonlinear_arith)
            requires pixels@.len() == y * w, y == h;
        let f = |px: int, py: int| bar_color(px, full_w as int);
        assert forall|px: int, py: int| 0 <= px < w && 0 <= py < h implies #[trigger] pixel_of(pixels@, w as int, px, py) == f(px, py) by {
            assert(pixel_of(pixels@, w as int, px, py) == bar_color(px, full_w as int));
        }
        lemma_rows(pixels@, w as int, h as int, f);
        assert(pixels@ =~= bar_pixels(full_w as int, w as int, h as int));
    }
    Raster { width: w, height: h, pixels }
}

/// The side of one QR module in pixels: the target size over the module
/// count, rounded up.
pub open spec fn qr_module_px(size: int, count: int) -> int {
    (size + count - 1) / count
}

/// The colour of pixel `(x, y)` of a module grid drawn at `ms` pixels per module.
pub open spec fn qr_color(dark: Seq<bool>, count: int, ms: int, x: int, y: int) -> Rgba {
    if dark[(y / ms) * count + x / ms] { black() } else { white() }
}

pub proof fn lemma_module_of(v: int, ms: int, count: int)
    requires
        0 <= v < ms * count,
        ms > 0,
    ensures
        0 <= v / ms < count,
{
    vstd::arithmetic::div_mod::lemma_fundamental_div_mod(v, ms);
    let q = v / ms;
    let r = v % ms;
    assert(0 <= q < count) by (nonlinear_arith)
        requires v == ms * q + r, 0 <= r < ms, 0 <= v < ms * count, ms > 0;
}

/// The integer module size for drawing `count` modules at `size` pixels:
/// `ceil(size / count)`.
pub fn qr_module_size(size: u32, count: usize) -> (r: u64)
    requires
        count > 0,
    ensures
        r == qr_module_px(size as int, count as int),
{
    let v: u128 = (size as u128 + count as u128 - 1) / count as u128;
    proof {
        assert((size + count - 1) / (count as int) <= size) by (nonlinear_arith)
            requires count >= 1, size >= 0;
    }
    v as u64
}

/// The module grid drawn at `ms` pixels per module: black for dark modules,
/// white for light ones, `ms * width` pixels on a side.
pub fn render_qr_modules(grid: &QrGrid, ms: usize) -> (r: Raster)
    requires
        grid.width > 0,
        grid.dark@.len() == grid.width * grid.width,
        ms > 0,
        (ms * grid.width) * (ms * grid.width) <= usize::MAX,
    ensures
        r.wf(),
        r.width == ms * grid.width,
        r.height == ms * grid.width,
        forall|x: int, y: int| 0 <= x < r.width && 0 <= y < r.height
            ==> #[trigger] r.pixel(x, y) == qr_color(grid.dark@, grid.width as int, ms as int, x, y),
{
    let count = grid.width;
    proof {
        assert(ms * count >= 1) by (nonlinear_arith)
            requires ms >= 1, count >= 1;
        assert(ms * count <= (ms * count) * (ms * count)) by (nonlinear_arith)
            requires ms * count >= 1;
    }
    let _n = grid.dark.len();
    let side: usize = ms * count;
    let mut pixels: Vec<Rgba> = Vec::new();
    let mut y: usize = 0;
    while y < side
        invariant
            side == ms * count,
            side * side <= usize::MAX,
            count == grid.width,
            grid.dark@.len() == count * count,
            count * count <= usize::MAX,
            ms > 0,
            y <= side,
            pixels@.len() == y * side,
            forall|px: int, py: int| 0 <= px < side && 0 <= py < y ==> #[trigger] pixel_of(pixels@, side as int, px, py) == qr_color(grid.dark@, count as int, ms as int, px, py),
        decreases side - y,
    {
        let mut x: usize = 0;
        proof {
            assert(y * side + side <= side * side) by (nonlinear_arith)
                requires y < side;
            lemma_module_of(y as int, ms as int, count as int);
        }
        let row: usize = y / ms;
        proof {
            assert(row * count + count <= count * count) by (nonlinear_arith)
                requires row < count;
        }
        while x < side
            invariant
                side == ms * count,
                side * side <= usize::MAX,
                y * side + side <= side * side,
                count == grid.width,
                grid.dark@.len() == count * count,
                count * count <= usize::MAX,
                ms > 0,
                row == y / ms,
                row * count + count <= count * count,
                y < side,
                x <= side,
                pixels@.len() == y * side + x,
                forall|px: int, py: int| 0 <= px < side && 0 <= py < y ==> #[trigger] pixel_of(pixels@, side as int, px, py) == qr_color(grid.dark@, count as int, ms as int, px, py),
                forall|px: int| 0 <= px < x ==> #[trigger] pixel_of(pixels@, side as int, px, y as int) == qr_color(grid.dark@, count as int, ms as int, px, y as int),
            decreases side - x,
        {
            proof {
                lemma_module_of(x as int, ms as int, count as int);
            }
            let c = if grid.dark[row * count + x / ms] {
                Rgba { r: 0, g: 0, b: 0, a: 255 }
            } else {
                Rgba { r: 255, g: 255, b: 255, a: 255 }
            };
            let ghost before = pixels@;
            pixels.push(c);
            proof {
                assert forall|px: int, py: int| 0 <= px < side && 0 <= py < y implies #[trigger] pixel_of(pixels@, side as int, px, py) == qr_color(grid.dark@, count as int, ms as int, px, py) by {
                    lemma_pixel_index(side as int, y as int, px, py);
                    assert(side * y == y * side) by (nonlinear_arith);
                    assert(pixel_of(before, side as int, px, py) == qr_color(grid.dark@, count as int, ms as int, px, py));
                }
                assert forall|px: int| 0 <= px < x + 1 implies #[trigger] pixel_of(pixels@, side as int, px, y as int) == qr_color(grid.dark@, count as int, ms as int, px, y as int) by {
                    if px < x {
                        assert(pixel_of(before, side as int, px, y as int) == qr_color(grid.dark@, count as int, ms as int, px, y as int));
                    }
                }
            }
            x += 1;
        }
        proof {
            assert forall|px: int, py: int| 0 <= px < side && 0 <= py < y + 1 implies #[trigger] pixel_of(pixels@, side as int, px, py) == qr_color(grid.dark@, count as int, ms as int, px, py) by {
                if py == y {
                    assert(pixel_of(pixels@, side as int, px, y as int) == qr_color(grid.dark@, count as int, ms as int, px, y as int));
                }
            }
            assert(pixels@.len() == (y + 1) * side) by (nonlinear_arith)
                requires pixels@.len() == y * side + side;
        }
        y += 1;
    }
    proof {
        assert(pixels@.len() == side * side) by (nonlinear_arith)
            requires pixels@.len() == y * side, y == side;
    }
    Raster { width: side, height: side, pixels }
}

/// The pixels, row by row, of a module grid drawn at `ms` pixels per module.
pub open spec fn qr_module_pixels(dark: Seq<bool>, count: int, ms: int) -> Seq<Rgba> {
    Seq::new(((ms * count) * (ms * count)) as nat, |i: int| qr_color(dark, count, ms, i % (ms * count), i / (ms * count)))
}

/// The QR symbol at `size` x `size` pixels: the module grid drawn at the
/// rounded-up module size, then resampled by nearest neighbour to `size`
/// where the two differ.
pub open spec fn qr_pixels(dark: Seq<bool>, count: int, size: int) -> Seq<Rgba> {
    let ms = qr_module_px(size, count);
    let side = ms * count;
    if side == size {
        qr_module_pixels(dark, count, ms)
    } else {
        pixels_of_bytes(resized_of(rgba_bytes(qr_module_pixels(dark, count, ms)), side as nat, side as nat, size as nat, size as nat, false))
    }
}

/// Why a stamp could not be drawn.
#[derive(Clone, Copy, Debug, PartialEq, Eq, Structural)]
pub enum StampError {
    /// The QR encoder could not encode the text.
    QrEncoding,
    /// A raster the stamp needs does not fit in memory.
    TooLarge,
}

/// A raster of `w` x `h` pixels, and its bytes, can be addressed, and each
/// side is a non-negative 32-bit signed value.
pub open spec fn fits(w: int, h: int) -> bool {
    w * h * 4 <= usize::MAX && w <= 0x7fff_ffff && h <= 0x7fff_ffff
}

/// Whether a `w` x `h` raster fits; see `fits`.
pub fn raster_fits(w: u64, h: u64) -> (r: bool)
    ensures
        r == fits(w as int, h as int),
{
    if w > 0x7fff_ffff || h > 0x7fff_ffff {
        return false;
    }
    proof {
        assert(w * h * 4 <= 0xffff_ffff * 0xffff_ffff * 4) by (nonlinear_arith)
            requires w <= 0xffff_ffff, h <= 0xffff_ffff;
    }
    let n: u128 = w as u128 * h as u128 * 4;
    n <= usize::MAX as u128
}

/// Both the `size` x `size` symbol and the module grid it is drawn from,
/// `count` modules on a side, fit in memory.
pub open spec fn qr_fits(size: int, count: int) -> bool {
    fits(size, size) && fits(qr_module_px(size, count) * count, qr_module_px(size, count) * count)
}

/// Encodes `text` at `level` and draws it `size` pixels on a side.
pub fn qr_image(text: &str, level: QrLevel, size: u32) -> (r: Result<Raster, StampError>)
    ensures
        r == Err::<Raster, StampError>(StampError::QrEncoding) <==> qr_modules_of(text@, level) is None,
        r matches Ok(img) ==> (qr_modules_of(text@, level) matches Some(m) && img.wf()
            && img.width == size && img.height == size && img.pixels@ == qr_pixels(m.1, m.0 as int, size as int)),
        r == Err::<Raster, StampError>(StampError::TooLarge) <==> (qr_modules_of(text@, level) matches Some(m)
            && !qr_fits(size as int, m.0 as int)),
{
    let grid = match qr_encode(text, level) {
        Some(g) => g,
        None => { return Err(StampError::QrEncoding); },
    };
    let count = grid.width;
    let ms = qr_module_size(size, count);
    proof {
        assert(ms * count <= 0xffff_ffff_ffff_ffff * 0xffff_ffff_ffff_ffff) by (nonlinear_arith)
            requires ms <= 0xffff_ffff_ffff_ffff, count <= 0xffff_ffff_ffff_ffff;
    }
    let side_wide: u128 = ms as u128 * count as u128;
    if side_wide > 0xffff_ffff || !raster_fits(side_wide as u64, side_wide as u64) || !raster_fits(size as u64, size as u64) {
        return Err(StampError::TooLarge);
    }
    proof {
        assert(side_wide * side_wide <= side_wide * side_wide * 4) by (nonlinear_arith)
            requires side_wide >= 0;
        assert(side_wide <= side_wide * side_wide || side_wide == 0) by (nonlinear_arith)
            requires side_wide >= 0;
        assert(ms <= side_wide) by (nonlinear_arith)
            requires side_wide == ms * count, count >= 1, ms >= 0;
    }
    let side: usize = side_wide as usize;
    if size == 0 {
        proof {
            vstd::arithmetic::div_mod::lemma_basic_div(count - 1, count as int);
        }
        let img = Raster::filled(0, 0, Rgba { r: 0, g: 0, b: 0, a: 0 });
        proof {
            assert(img.pixels@ =~= qr_module_pixels(grid.dark@, count as int, 0));
        }
        return Ok(img);
    }
    proof {
        assert(ms >= 1) by (nonlinear_arith)
            requires ms == (size + count - 1) / (count as int), size >= 1, count >= 1;
    }
    let modules = render_qr_modules(&grid, ms as usize);
    proof {
        let f = |x: int, y: int| qr_color(grid.dark@, count as int, ms as int, x, y);
        assert forall|x: int, y: int| 0 <= x < side && 0 <= y < side implies #[trigger] pixel_of(modules.pixels@, side as int, x, y) == f(x, y) by {
            assert(modules.pixel(x, y) == qr_color(grid.dark@, count as int, ms as int, x, y));
        }
        lemma_rows(modules.pixels@, side as int, side as int, f);
        assert(modules.pixels@ =~= qr_module_pixels(grid.dark@, count as int, ms as int));
    }
    if side == size as usize {
        return Ok(modules);
    }
    let bytes = modules.to_rgba_bytes();
    proof {
        crate::raster::lemma_rgba_bytes_len(modules.pixels@);
    }
    let resized = resize_rgba(bytes, side as u32, side as u32, size, size, false);
    match Raster::from_rgba_bytes(size as usize, size as usize, &resized) {
        Some(img) => Ok(img),
        None => {
            proof {
                assert(false);
            }
            Err(StampError::TooLarge)
        },
    }
}

/// The colour a stamp's colour string names, or opaque black.
pub open spec fn color_or_black_of(s: Seq<char>) -> Rgba {
    match css_color_of(s) {
        Some(c) => c,
        None => black(),
    }
}

/// Parses a CSS colour string; one that does not parse gives opaque black.
pub fn color_or_black(s: &str) -> (r: Rgba)
    ensures
        r == color_or_black_of(s@),
{
    match css_color(s) {
        Some(c) => c,
        None => Rgba { r: 0, g: 0, b: 0, a: 255 },
    }
}

/// `color` with its opacity scaled by a coverage level out of 255.
pub open spec fn ink(color: Rgba, level: int) -> Rgba {
    Rgba { a: (level * color.a / 255) as u8, ..color }
}

/// Pixels under a coverage mask of the same layout: each covered pixel gets
/// `color` blended at its coverage, the others stay.
pub open spec fn apply_mask(pixels: Seq<Rgba>, mask: Seq<u8>, color: Rgba) -> Seq<Rgba> {
    Seq::new(pixels.len(), |i: int| if mask[i] > 0 { blend(ink(color, mask[i] as int), pixels[i]) } else { pixels[i] })
}

/// Blends `color` onto each pixel that the mask covers, at its coverage.
pub fn blend_mask(img: &mut Raster, mask: &Vec<u8>, color: Rgba)
    requires
        old(img).wf(),
        mask@.len() == old(img).pixels@.len(),
    ensures
        final(img).wf(),
        final(img).width == old(img).width,
        final(img).height == old(img).height,
        final(img).pixels@ == apply_mask(old(img).pixels@, mask@, color),
{
    let ghost start = img.pixels@;
    let n = img.pixels.len();
    let mut i: usize = 0;
    while i < n
        invariant
            n == start.len(),
            mask@.len() == n,
            img.pixels@.len() == n,
            img.width == old(img).width,
            img.height == old(img).height,
            start == old(img).pixels@,
            i <= n,
            forall|j: int| 0 <= j < i ==> img.pixels@[j] == apply_mask(start, mask@, color)[j],
            forall|j: int| i <= j < n ==> img.pixels@[j] == start[j],
        decreases n - i,
    {
        let level = mask[i];
        if level > 0 {
            proof {
                assert(level * color.a / 255 <= 255) by (nonlinear_arith)
                    requires level <= 255, color.a <= 255;
            }
            let a: u8 = ((level as u32 * color.a as u32) / 255) as u8;
            let src = Rgba { r: color.r, g: color.g, b: color.b, a };
            let dst = img.pixels[i];
            let out = crate::raster::blend_pixel(src, dst);
            img.pixels.set(i, out);
        }
        i += 1;
    }
    proof {
        assert(img.pixels@ =~= apply_mask(start, mask@, color));
    }
}

/// The farthest a pen position may lie from the origin, in pixels: far
/// beyond any canvas, and near enough that the rasterizer's own arithmetic on
/// it cannot overflow.
pub const PEN_LIMIT: i32 = 0x4000_0000;

/// `v` saturated at `PEN_LIMIT` either way.
pub open spec fn clamp_pen(v: int) -> int {
    if v < -PEN_LIMIT {
        -PEN_LIMIT as int
    } else if v > PEN_LIMIT {
        PEN_LIMIT as int
    } else {
        v
    }
}

fn clamp_u64_to_pen(v: u64) -> (r: i32)
    ensures
        r == clamp_pen(v as int),
{
    if v > PEN_LIMIT as u64 {
        PEN_LIMIT
    } else {
        v as i32
    }
}

fn clamp_to_pen(v: i64) -> (r: i32)
    ensures
        r == clamp_pen(v as int),
{
    if v < -PEN_LIMIT as i64 {
        -PEN_LIMIT
    } else if v > PEN_LIMIT as i64 {
        PEN_LIMIT
    } else {
        v as i32
    }
}

/// The glyphs of `text` drawn one after another: each character's coverage
/// mask is blended in `color` with the pen at `(pen, y)`, then the pen moves
/// right by the character's advance. Positions saturate at `PEN_LIMIT`.
pub open spec fn draw_glyphs(
    pixels: Seq<Rgba>,
    font: Seq<u8>,
    size: nat,
    text: Seq<char>,
    pen: int,
    y: int,
    w: nat,
    h: nat,
    color: Rgba,
) -> Seq<Rgba>
    decreases text.len(),
{
    if text.len() == 0 {
        pixels
    } else {
        let mask = glyph_coverage_of(font, size, text[0], pen, y, w, h);
        let next = clamp_pen(pen + text_extent_of(font, size, seq![text[0]]).0);
        draw_glyphs(apply_mask(pixels, mask, color), font, size, text.skip(1), next, y, w, h, color)
    }
}

/// What a text stamp leaves on a `tw` x `th` ticket whose template was
/// `w0` x `h0`: nothing where its text resolves to the empty string; else the
/// text at the scaled font size, placed by its alignment around the scaled anchor.
pub open spec fn text_stamp_pixels(
    pixels: Seq<Rgba>,
    font: Seq<u8>,
    stamp: TextStamp,
    record: Map<Seq<char>, Seq<char>>,
    tw: int,
    th: int,
    w0: int,
    h0: int,
) -> Seq<Rgba> {
    let text = resolve(stamp.template@, record);
    if text.len() == 0 {
        pixels
    } else {
        let ax = clamp_pen(scale_floor(stamp.x as int, tw, w0));
        let ay = clamp_pen(scale_floor(stamp.y as int, th, h0));
        let size = font_px_of(stamp.font_size as int, tw, th, w0, h0) as nat;
        let extent = text_extent_of(font, size, text);
        let va = v_align_of(
            match stamp.vertical_align {
                Some(t) => Some(t@),
                None => None,
            },
        );
        let origin = text_origin_of(ax, ay, h_align_of(stamp.alignment@), va, extent.0 as int, extent.1 as int);
        draw_glyphs(pixels, font, size, text, clamp_pen(origin.0), clamp_pen(origin.1), tw as nat, th as nat, color_or_black_of(stamp.color@))
    }
}

/// Draws a text stamp onto a ticket of the template `w0` x `h0` scaled to the
/// ticket's size.
pub fn draw_text_stamp(img: &mut Raster, font: &Vec<u8>, stamp: &TextStamp, record: &Vec<(String, String)>, w0: u32, h0: u32)
    requires
        old(img).wf(),
        fits(old(img).width as int, old(img).height as int),
        w0 > 0,
        h0 > 0,
        font_parses(font@),
    ensures
        final(img).wf(),
        final(img).width == old(img).width,
        final(img).height == old(img).height,
        final(img).pixels@ == text_stamp_pixels(
            old(img).pixels@,
            font@,
            *stamp,
            record_view(record@),
            old(img).width as int,
            old(img).height as int,
            w0 as int,
            h0 as int,
        ),
{
    let text = resolve_template(stamp.template.as_str(), record);
    let n = text.as_str().unicode_len();
    if n == 0 {
        return;
    }
    let tw = img.width as u32;
    let th = img.height as u32;
    let ax = clamp_u64_to_pen(scale_coord(stamp.x, tw, w0));
    let ay = clamp_u64_to_pen(scale_coord(stamp.y, th, h0));
    let color = color_or_black(stamp.color.as_str());
    let size = scaled_font_px(stamp.font_size, tw, th, w0, h0);
    let (ew, eh) = text_extent(font.as_slice(), size, text.as_str());
    let ha = parse_h_align(stamp.alignment.as_str());
    let va = parse_v_align(&stamp.vertical_align);
    let (ox, oy) = text_origin(ax as i64, ay as i64, ha, va, ew, eh);
    let y = clamp_to_pen(oy);
    let mut pen = clamp_to_pen(ox);
    let ghost s = text@;
    let ghost fontv = font@;
    let ghost sz = size as nat;
    let mut i: usize = 0;
    proof {
        assert(s.skip(0) =~= s);
    }
    while i < n
        invariant
            n == s.len(),
            s == text@,
            fontv == font@,
            font_parses(font@),
            sz == size as nat,
            img.wf(),
            img.width == old(img).width,
            img.height == old(img).height,
            tw == img.width,
            th == img.height,
            fits(img.width as int, img.height as int),
            -0x4000_0000 <= pen <= 0x4000_0000,
            -0x4000_0000 <= y <= 0x4000_0000,
            i <= n,
            draw_glyphs(img.pixels@, fontv, sz, s.skip(i as int), pen as int, y as int, tw as nat, th as nat, color)
                == draw_glyphs(old(img).pixels@, fontv, sz, s, clamp_pen(ox as int), y as int, tw as nat, th as nat, color),
        decreases n - i,
    {
        let ch = text.as_str().get_char(i);
        let one = text.as_str().substring_char(i, i + 1);
        proof {
            assert(one@ =~= seq![s[i as int]]);
            assert(s.skip(i as int).skip(1) =~= s.skip(i + 1));
            assert(tw * th <= usize::MAX) by (nonlinear_arith)
                requires tw * th * 4 <= usize::MAX;
        }
        let mask = glyph_coverage(font.as_slice(), size, ch, pen, y, tw, th);
        blend_mask(img, &mask, color);
        let (adv, _) = text_extent(font.as_slice(), size, one);
        pen = clamp_to_pen(pen as i64 + adv as i64);
        i += 1;
    }
    proof {
        assert(s.skip(n as int) =~= Seq::<char>::empty());
    }
}

pub open spec fn min_int(a: int, b: int) -> int {
    if a <= b { a } else { b }
}

/// What a barcode stamp leaves on a `tw` x `th` ticket whose template was
/// `w0` x `h0`: nothing where its text resolves to the empty string; else the
/// placeholder symbol over its scaled rectangle, clipped to the ticket.
pub open spec fn barcode_stamp_pixels(
    pixels: Seq<Rgba>,
    stamp: BarcodeStamp,
    record: Map<Seq<char>, Seq<char>>,
    tw: int,
    th: int,
    w0: int,
    h0: int,
) -> Seq<Rgba> {
    let text = resolve(stamp.template@, record);
    let x = scale_floor(stamp.x as int, tw, w0);
    let y = scale_floor(stamp.y as int, th, h0);
    let w = scale_floor(stamp.width as int, tw, w0);
    let h = scale_floor(stamp.height as int, th, h0);
    if text.len() == 0 || x >= tw || y >= th {
        pixels
    } else {
        let vw = min_int(w, tw - x);
        let vh = min_int(h, th - y);
        composite_pixels(pixels, tw, th, bar_pixels(w, vw, vh), vw, vh, x, y)
    }
}

/// Draws a barcode stamp onto a ticket of the template `w0` x `h0` scaled to
/// the ticket's size.
pub fn draw_barcode_stamp(img: &mut Raster, stamp: &BarcodeStamp, record: &Vec<(String, String)>, w0: u32, h0: u32)
    requires
        old(img).wf(),
        fits(old(img).width as int, old(img).height as int),
        w0 > 0,
        h0 > 0,
    ensures
        final(img).wf(),
        final(img).width == old(img).width,
        final(img).height == old(img).height,
        final(img).pixels@ == barcode_stamp_pixels(
            old(img).pixels@,
            *stamp,
            record_view(record@),
            old(img).width as int,
            old(img).height as int,
            w0 as int,
            h0 as int,
        ),
{
    let text = resolve_template(stamp.template.as_str(), record);
    if text.as_str().unicode_len() == 0 {
        return;
    }
    let tw = img.width as u32;
    let th = img.height as u32;
    let x = scale_coord(stamp.x, tw, w0);
    let y = scale_coord(stamp.y, th, h0);
    let w = scale_coord(stamp.width, tw, w0);
    let h = scale_coord(stamp.height, th, h0);
    if x >= tw as u64 || y >= th as u64 {
        return;
    }
    let vw: usize = if w < (tw as u64 - x) { w as usize } else { (tw as u64 - x) as usize };
    let vh: usize = if h < (th as u64 - y) { h as usize } else { (th as u64 - y) as usize };
    proof {
        assert(vw * vh <= tw * th) by (nonlinear_arith)
            requires vw <= tw, vh <= th, vw >= 0, vh >= 0;
        assert(tw * th <= tw * th * 4) by (nonlinear_arith)
            requires tw >= 0, th >= 0;
    }
    let pattern = barcode_pattern(w, vw, vh);
    img.composite(&pattern, x as usize, y as usize);
}

/// The side, in pixels, of a QR stamp on a `tw` x `th` ticket whose template
/// was `w0` x `h0`: its width scaled by the smaller of the two axis factors.
pub open spec fn qr_side_of(width: int, tw: int, th: int, w0: int, h0: int) -> int {
    if tw * h0 <= th * w0 {
        scale_floor(width, tw, w0)
    } else {
        scale_floor(width, th, h0)
    }
}

/// What a QR stamp does to a `tw` x `th` ticket whose template was `w0` x
/// `h0`: nothing where its text resolves to the empty string; an encoding
/// failure where the encoder refuses the text; else the symbol at its scaled
/// corner and side, clipped to the ticket. `None` stands for the encoding failure.
pub open spec fn qr_stamp_pixels(
    pixels: Seq<Rgba>,
    stamp: QrCodeStamp,
    record: Map<Seq<char>, Seq<char>>,
    tw: int,
    th: int,
    w0: int,
    h0: int,
) -> Option<Seq<Rgba>> {
    let text = resolve(stamp.template@, record);
    let x = scale_floor(stamp.x as int, tw, w0);
    let y = scale_floor(stamp.y as int, th, h0);
    let size = qr_side_of(stamp.width as int, tw, th, w0, h0);
    if text.len() == 0 {
        Some(pixels)
    } else {
        match qr_modules_of(text, qr_level_of(stamp.error_correction@)) {
            None => None,
            Some(m) => Some(
                composite_pixels(pixels, tw, th, qr_pixels(m.1, m.0 as int, size), size, size, min_int(x, tw), min_int(y, th)),
            ),
        }
    }
}

/// Draws a QR stamp onto a ticket of the template `w0` x `h0` scaled to the
/// ticket's size. Fails where the encoder refuses the text, or where the
/// symbol's raster would not fit in memory; the ticket is then left as it was.
pub fn draw_qr_stamp(img: &mut Raster, stamp: &QrCodeStamp, record: &Vec<(String, String)>, w0: u32, h0: u32) -> (r: Result<(), StampError>)
    requires
        old(img).wf(),
        fits(old(img).width as int, old(img).height as int),
        w0 > 0,
        h0 > 0,
    ensures
        final(img).wf(),
        final(img).width == old(img).width,
        final(img).height == old(img).height,
        ({
            let expected = qr_stamp_pixels(
                old(img).pixels@,
                *stamp,
                record_view(record@),
                old(img).width as int,
                old(img).height as int,
                w0 as int,
                h0 as int,
            );
            let text = resolve(stamp.template@, record_view(record@));
            let size = qr_side_of(stamp.width as int, old(img).width as int, old(img).height as int, w0 as int, h0 as int);
            &&& (r == Err::<(), StampError>(StampError::QrEncoding) <==> expected is None)
            &&& (r == Err::<(), StampError>(StampError::TooLarge) <==> (text.len() > 0
                && (qr_modules_of(text, qr_level_of(stamp.error_correction@)) matches Some(m) && !qr_fits(size, m.0 as int))))
            &&& (r is Ok ==> expected == Some(final(img).pixels@))
            &&& (r is Err ==> final(img).pixels@ == old(img).pixels@)
        }),
{
    let text = resolve_template(stamp.template.as_str(), record);
    if text.as_str().unicode_len() == 0 {
        return Ok(());
    }
    let tw = img.width as u32;
    let th = img.height as u32;
    let x = scale_coord(stamp.x, tw, w0);
    let y = scale_coord(stamp.y, th, h0);
    proof {
        assert(tw * h0 <= 0xffff_ffff * 0xffff_ffff) by (nonlinear_arith)
            requires tw <= 0xffff_ffff, h0 <= 0xffff_ffff;
        assert(th * w0 <= 0xffff_ffff * 0xffff_ffff) by (nonlinear_arith)
            requires th <= 0xffff_ffff, w0 <= 0xffff_ffff;
    }
    let lhs: u64 = tw as u64 * h0 as u64;
    let rhs: u64 = th as u64 * w0 as u64;
    let size: u64 = if lhs <= rhs { scale_coord(stamp.width, tw, w0) } else { scale_coord(stamp.width, th, h0) };
    let level = parse_qr_level(stamp.error_correction.as_str());
    if size > 0xffff_ffff {
        return match qr_encode(text.as_str(), level) {
            None => Err(StampError::QrEncoding),
            Some(_) => Err(StampError::TooLarge),
        };
    }
    let symbol = match qr_image(text.as_str(), level, size as u32) {
        Ok(s) => s,
        Err(e) => { return Err(e); },
    };
    let cx: usize = if x < tw as u64 { x as usize } else { tw as usize };
    let cy: usize = if y < th as u64 { y as usize } else { th as usize };
    img.composite(&symbol, cx, cy);
    Ok(())
}

} // verus!
