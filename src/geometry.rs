//! Physical measurements (micrometres, dots per inch) to pixel and point
//! geometry, shared by the raster preview and the paged export.
use vstd::prelude::*;

verus! {

/// Micrometres in one inch.
pub const UM_PER_INCH: u64 = 25400;

/// Resolutions are given in hundredths of a dot per inch, so that one such as
/// 25.4 dpi is exact: a length in micrometres times a resolution is divided by
/// `PX_DENOM` to give pixels.
pub const PX_DENOM: u64 = 2_540_000;

/// Paper, grid, margins and spacing of a sheet. Lengths are in micrometres.
#[derive(Clone, Copy, Debug)]
pub struct SheetConfig {
    pub paper_width_um: u32,
    pub paper_height_um: u32,
    pub rows: u32,
    pub cols: u32,
    pub margin_top_um: u32,
    pub margin_right_um: u32,
    pub margin_bottom_um: u32,
    pub margin_left_um: u32,
    pub spacing_x_um: u32,
    pub spacing_y_um: u32,
}

/// `n / d` rounded to the nearest integer, halves away from zero (`n >= 0`, `d > 0`).
pub open spec fn round_div(n: int, d: int) -> int {
    (2 * n + d) / (2 * d)
}

/// A length in micrometres as whole pixels at `dpi` hundredths of a dot per
/// inch: `um * dpi / 2540000`, rounded.
pub open spec fn px_of(um: int, dpi: int) -> int {
    round_div(um * dpi, PX_DENOM as int)
}

/// What is left of the paper's width for the tickets of one row, in micrometres.
pub open spec fn avail_width(c: SheetConfig) -> int {
    c.paper_width_um - c.margin_left_um - c.margin_right_um - (c.cols - 1) * c.spacing_x_um
}

/// What is left of the paper's height for the tickets of one column, in micrometres.
pub open spec fn avail_height(c: SheetConfig) -> int {
    c.paper_height_um - c.margin_top_um - c.margin_bottom_um - (c.rows - 1) * c.spacing_y_um
}

/// The grid is not empty and each ticket has a strictly positive width and height.
pub open spec fn config_valid(c: SheetConfig) -> bool {
    &&& c.rows > 0
    &&& c.cols > 0
    &&& avail_width(c) > 0
    &&& avail_height(c) > 0
}

/// A ticket's width in pixels: `avail_width / cols` millimetres at `dpi`, rounded once.
pub open spec fn ticket_width_px(c: SheetConfig, dpi: int) -> int {
    round_div(avail_width(c) * dpi, c.cols * PX_DENOM)
}

/// A ticket's height in pixels: `avail_height / rows` millimetres at `dpi`, rounded once.
pub open spec fn ticket_height_px(c: SheetConfig, dpi: int) -> int {
    round_div(avail_height(c) * dpi, c.rows * PX_DENOM)
}

/// The pixel geometry of a sheet: every length rounded on its own from millimetres.
#[derive(Clone, Copy, Debug)]
pub struct SheetLayout {
    pub page_width_px: u64,
    pub page_height_px: u64,
    pub ticket_width_px: u64,
    pub ticket_height_px: u64,
    pub margin_left_px: u64,
    pub margin_top_px: u64,
    pub spacing_x_px: u64,
    pub spacing_y_px: u64,
    pub rows: u32,
    pub cols: u32,
}

/// The layout that `compute_layout` derives from a valid configuration.
pub open spec fn layout_of(c: SheetConfig, dpi: int) -> SheetLayout {
    SheetLayout {
        page_width_px: px_of(c.paper_width_um as int, dpi) as u64,
        page_height_px: px_of(c.paper_height_um as int, dpi) as u64,
        ticket_width_px: ticket_width_px(c, dpi) as u64,
        ticket_height_px: ticket_height_px(c, dpi) as u64,
        margin_left_px: px_of(c.margin_left_um as int, dpi) as u64,
        margin_top_px: px_of(c.margin_top_um as int, dpi) as u64,
        spacing_x_px: px_of(c.spacing_x_um as int, dpi) as u64,
        spacing_y_px: px_of(c.spacing_y_um as int, dpi) as u64,
        rows: c.rows,
        cols: c.cols,
    }
}

proof fn lemma_round_div_bound(n: int, d: int)
    requires
        n >= 0,
        d >= 1,
    ensures
        0 <= round_div(n, d) <= n + 1,
{
    assert(0 <= (2 * n + d) / (2 * d) <= n + 1) by (nonlinear_arith)
        requires n >= 0, d >= 1;
}

/// `a * b / denom` rounded half up, for two 32-bit factors.
fn round_div_u64(a: u32, b: u32, denom: u64) -> (r: u64)
    requires
        denom >= 1,
        denom <= 0x0fff_ffff_ffff_ffff,
    ensures
        r == round_div(a * b, denom as int),
{
    proof {
        assert(a * b <= 0xffff_ffff * 0xffff_ffff) by (nonlinear_arith)
            requires a <= 0xffff_ffff, b <= 0xffff_ffff;
        lemma_round_div_bound(a * b, denom as int);
    }
    let n: u128 = (a as u128) * (b as u128);
    let r: u128 = (2 * n + denom as u128) / (2 * denom as u128);
    r as u64
}

/// `avail_width` and `avail_height` of `c`, where they are positive.
pub(crate) fn available(paper: u32, m1: u32, m2: u32, count: u32, spacing: u32) -> (r: Option<u32>)
    requires
        count > 0,
    ensures
        r.is_some() <==> paper - m1 - m2 - (count - 1) * spacing > 0,
        r.is_some() ==> r.unwrap() == paper - m1 - m2 - (count - 1) * spacing,
{
    proof {
        assert((count - 1) * spacing <= 0xffff_ffff * 0xffff_ffff) by (nonlinear_arith)
            requires count <= 0xffff_ffff, spacing <= 0xffff_ffff, count >= 1;
    }
    let gaps: u64 = (count as u64 - 1) * spacing as u64;
    let used: u64 = m1 as u64 + m2 as u64;
    if used >= paper as u64 {
        return None;
    }
    let rest: u64 = paper as u64 - used;
    if gaps >= rest {
        return None;
    }
    Some((rest - gaps) as u32)
}

/// Derives the pixel geometry of a sheet at `dpi` hundredths of a dot per inch. Fails, before anything is
/// drawn, where the grid is empty or a ticket would not have a strictly
/// positive width and height.
pub fn compute_layout(c: SheetConfig, dpi: u32) -> (r: Option<SheetLayout>)
    ensures
        r.is_some() <==> config_valid(c),
        r.is_some() ==> r.unwrap() == layout_of(c, dpi as int),
{
    if c.rows == 0 || c.cols == 0 {
        return None;
    }
    let aw = match available(c.paper_width_um, c.margin_left_um, c.margin_right_um, c.cols, c.spacing_x_um) {
        Some(v) => v,
        None => { return None; }
    };
    let ah = match available(c.paper_height_um, c.margin_top_um, c.margin_bottom_um, c.rows, c.spacing_y_um) {
        Some(v) => v,
        None => { return None; }
    };
    proof {
        assert(c.cols * PX_DENOM <= 0xffff_ffff * PX_DENOM) by (nonlinear_arith)
            requires c.cols <= 0xffff_ffff;
        assert(c.rows * PX_DENOM <= 0xffff_ffff * PX_DENOM) by (nonlinear_arith)
            requires c.rows <= 0xffff_ffff;
        assert(c.cols * PX_DENOM >= 1) by (nonlinear_arith)
            requires c.cols >= 1;
        assert(c.rows * PX_DENOM >= 1) by (nonlinear_arith)
            requires c.rows >= 1;
    }
    let tw = round_div_u64(aw, dpi, c.cols as u64 * PX_DENOM);
    let th = round_div_u64(ah, dpi, c.rows as u64 * PX_DENOM);
    Some(SheetLayout {
        page_width_px: mm_to_px(c.paper_width_um, dpi),
        page_height_px: mm_to_px(c.paper_height_um, dpi),
        ticket_width_px: tw,
        ticket_height_px: th,
        margin_left_px: mm_to_px(c.margin_left_um, dpi),
        margin_top_px: mm_to_px(c.margin_top_um, dpi),
        spacing_x_px: mm_to_px(c.spacing_x_um, dpi),
        spacing_y_px: mm_to_px(c.spacing_y_um, dpi),
        rows: c.rows,
        cols: c.cols,
    })
}

/// Converts a length in micrometres to whole pixels at `dpi` hundredths of a
/// dot per inch, rounding to the
/// nearest pixel with halves rounded up. The same rule serves every length.
pub fn mm_to_px(um: u32, dpi: u32) -> (r: u64)
    ensures
        r == px_of(um as int, dpi as int),
{
    round_div_u64(um, dpi, PX_DENOM)
}

/// A valid configuration gives every ticket a strictly positive width and
/// height in millimetres; `compute_layout` fails on every other one.
pub proof fn lemma_valid_tickets_positive(c: SheetConfig)
    requires
        config_valid(c),
    ensures
        avail_width(c) > 0,
        avail_height(c) > 0,
        c.rows * c.cols > 0,
{
    assert(c.rows * c.cols > 0) by (nonlinear_arith)
        requires c.rows > 0, c.cols > 0;
}

/// Every conversion from micrometres to pixels is the nearest whole pixel,
/// halves rounded up.
pub proof fn lemma_px_rounding(um: int, dpi: int)
    requires
        um >= 0,
        dpi >= 0,
    ensures
        2 * PX_DENOM * px_of(um, dpi) <= 2 * um * dpi + PX_DENOM,
        2 * um * dpi + PX_DENOM < 2 * PX_DENOM * px_of(um, dpi) + 2 * PX_DENOM,
{
    let n = 2 * (um * dpi) + 2_540_000;
    let q = n / 5_080_000;
    vstd::arithmetic::div_mod::lemma_fundamental_div_mod(n, 5_080_000);
    assert(px_of(um, dpi) == q);
    assert(2 * um * dpi == 2 * (um * dpi)) by (nonlinear_arith);
}

/// The size of a `tw` x `th` template scaled by the one factor
/// `min(cw / tw, ch / th)` that makes it fit a `cw` x `ch` cell; the axis that
/// sets the factor is filled exactly, the other is rounded.
pub open spec fn fitted_size(tw: int, th: int, cw: int, ch: int) -> (int, int) {
    if tw <= 0 || th <= 0 {
        (0, 0)
    } else if cw * th <= ch * tw {
        (cw, round_div(th * cw, tw))
    } else {
        (round_div(tw * ch, th), ch)
    }
}

/// Where the scaled template lands in its cell and how large it is.
#[derive(Clone, Copy, Debug)]
pub struct Placement {
    pub width: u64,
    pub height: u64,
    pub offset_x: u64,
    pub offset_y: u64,
}

/// The placement `fit_template` computes.
pub open spec fn placement_of(tw: int, th: int, cw: int, ch: int) -> Placement {
    let size = fitted_size(tw, th, cw, ch);
    Placement {
        width: size.0 as u64,
        height: size.1 as u64,
        offset_x: ((cw - size.0) / 2) as u64,
        offset_y: ((ch - size.1) / 2) as u64,
    }
}

/// Scales a `tw` x `th` template uniformly into a `cw` x `ch` cell and centres
/// it: the offsets are half the space left on each axis, rounded down. A
/// template without pixels fills nothing.
pub fn fit_template(tw: u32, th: u32, cw: u64, ch: u64) -> (r: Placement)
    ensures
        r.width == fitted_size(tw as int, th as int, cw as int, ch as int).0,
        r.height == fitted_size(tw as int, th as int, cw as int, ch as int).1,
        r.width <= cw,
        r.height <= ch,
        r.offset_x == (cw - r.width) / 2,
        r.offset_y == (ch - r.height) / 2,
        r == placement_of(tw as int, th as int, cw as int, ch as int),
{
    proof {
        assert(cw * th <= 0xffff_ffff_ffff_ffff * 0xffff_ffff) by (nonlinear_arith)
            requires cw <= 0xffff_ffff_ffff_ffff, th <= 0xffff_ffff;
        assert(ch * tw <= 0xffff_ffff_ffff_ffff * 0xffff_ffff) by (nonlinear_arith)
            requires ch <= 0xffff_ffff_ffff_ffff, tw <= 0xffff_ffff;
    }
    if tw == 0 || th == 0 {
        return Placement { width: 0, height: 0, offset_x: cw / 2, offset_y: ch / 2 };
    }
    let lhs: u128 = cw as u128 * th as u128;
    let rhs: u128 = ch as u128 * tw as u128;
    let (w, h) = if lhs <= rhs {
        proof {
            assert(round_div(th * cw, tw as int) <= ch) by (nonlinear_arith)
                requires cw * th <= ch * tw, tw >= 1, cw >= 0,
                    round_div(th * cw, tw as int) == (2 * (th * cw) + tw) / (2 * tw);
        }
        (cw, ((2 * lhs + tw as u128) / (2 * tw as u128)) as u64)
    } else {
        proof {
            assert(round_div(tw * ch, th as int) <= cw) by (nonlinear_arith)
                requires cw * th > ch * tw, th >= 1, ch >= 0,
                    round_div(tw * ch, th as int) == (2 * (tw * ch) + th) / (2 * th);
        }
        (((2 * rhs + th as u128) / (2 * th as u128)) as u64, ch)
    };
    Placement { width: w, height: h, offset_x: (cw - w) / 2, offset_y: (ch - h) / 2 }
}

} // verus!
