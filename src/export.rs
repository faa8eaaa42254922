//! Placement of tickets across the pages of a print document, whose
//! coordinates are points with the origin at the bottom-left of the page.
use vstd::prelude::*;
use crate::geometry::{SheetConfig, UM_PER_INCH, avail_width, avail_height, config_valid, round_div, available};

verus! {

/// Thousandths of a point in one inch.
pub const MPT_PER_INCH: u64 = 72000;

/// A length in micrometres as thousandths of a point, rounded.
pub open spec fn mpt_of(num: int, den: int) -> int {
    round_div(num * MPT_PER_INCH, den * UM_PER_INCH)
}

/// The left edge of column `col`, in micrometres times `cols`:
/// `margin_left + col * (ticket_width + spacing_x)`.
pub open spec fn x_num(c: SheetConfig, col: int) -> int {
    c.margin_left_um * c.cols + col * (avail_width(c) + c.spacing_x_um * c.cols)
}

/// The bottom edge of row `row` measured up from the bottom of the page, in
/// micrometres times `rows`:
/// `paper_height - margin_top - (row + 1) * ticket_height - row * spacing_y`.
pub open spec fn y_num(c: SheetConfig, row: int) -> int {
    (c.paper_height_um - c.margin_top_um - row * c.spacing_y_um) * c.rows - (row + 1) * avail_height(c)
}

/// Where one ticket goes: its page and cell, and its lower-left corner on the
/// page in thousandths of a point.
#[derive(Clone, Copy, Debug, PartialEq, Eq, Structural)]
pub struct ExportPlacement {
    pub page: usize,
    pub row: u32,
    pub col: u32,
    pub x_mpt: u128,
    pub y_mpt: u128,
}

/// Pages and placements for a run of tickets; sizes in thousandths of a point.
#[derive(Debug)]
pub struct ExportPlan {
    pub page_count: usize,
    pub page_width_mpt: u128,
    pub page_height_mpt: u128,
    pub ticket_width_mpt: u128,
    pub ticket_height_mpt: u128,
    pub placements: Vec<ExportPlacement>,
}

/// The placement of ticket `i`: page `i / per_page`, then row-major on the page.
pub open spec fn placement_at(c: SheetConfig, i: int) -> ExportPlacement {
    let per = c.rows * c.cols;
    let slot = i % per;
    let row = slot / (c.cols as int);
    let col = slot % (c.cols as int);
    ExportPlacement {
        page: (i / per) as usize,
        row: row as u32,
        col: col as u32,
        x_mpt: mpt_of(x_num(c, col), c.cols as int) as u128,
        y_mpt: mpt_of(y_num(c, row), c.rows as int) as u128,
    }
}

proof fn lemma_y_num_nonneg(c: SheetConfig, row: int)
    requires
        config_valid(c),
        0 <= row < c.rows,
    ensures
        y_num(c, row) >= 0,
{
    let a = avail_height(c);
    let r = c.rows as int;
    let sy = c.spacing_y_um as int;
    let mb = c.margin_bottom_um as int;
    let u = r - 1 - row;
    let t = c.paper_height_um - c.margin_top_um - row * sy;
    assert(t == a + mb + u * sy) by (nonlinear_arith)
        requires
            t == c.paper_height_um - c.margin_top_um - row * sy,
            a == c.paper_height_um - c.margin_top_um - c.margin_bottom_um - (r - 1) * sy,
            mb == c.margin_bottom_um,
            u == r - 1 - row;
    assert(y_num(c, row) == t * r - (row + 1) * a);
    assert(t * r - (row + 1) * a == a * u + (mb + u * sy) * r) by (nonlinear_arith)
        requires t == a + mb + u * sy, r == u + row + 1;
    assert(a * u + (mb + u * sy) * r >= 0) by (nonlinear_arith)
        requires a > 0, u >= 0, mb >= 0, sy >= 0, r >= 1;
}

/// Rounds `num * 72000 / (den * 25400)` for the sizes of this module.
fn mpt(num: u128, den: u32) -> (r: u128)
    requires
        den > 0,
        num <= 0x10_0000_0000_0000_0000_0000_0000,
    ensures
        r == mpt_of(num as int, den as int),
{
    proof {
        assert(den * 25400 <= 0xffff_ffff * 25400) by (nonlinear_arith)
            requires den <= 0xffff_ffff;
        assert(num * 72000 <= 0x10_0000_0000_0000_0000_0000_0000 * 72000) by (nonlinear_arith)
            requires num <= 0x10_0000_0000_0000_0000_0000_0000;
    }
    let d: u128 = den as u128 * UM_PER_INCH as u128;
    (2 * (num * MPT_PER_INCH as u128) + d) / (2 * d)
}

/// Places `count` tickets row-major across as many pages as they need,
/// `rows * cols` to a page; a new page starts when one is full. Vertical
/// positions are measured up from the bottom of the page. `None` where the
/// configuration is not valid.
pub fn plan_export(c: SheetConfig, count: usize) -> (r: Option<ExportPlan>)
    ensures
        r is Some <==> config_valid(c),
        r matches Some(plan) ==> {
            let per = c.rows * c.cols;
            &&& plan.page_count == (count + per - 1) / per
            &&& plan.placements@.len() == count
            &&& forall|i: int| 0 <= i < count ==> #[trigger] plan.placements@[i] == placement_at(c, i)
            &&& plan.page_width_mpt == mpt_of(c.paper_width_um as int, 1)
            &&& plan.page_height_mpt == mpt_of(c.paper_height_um as int, 1)
            &&& plan.ticket_width_mpt == mpt_of(avail_width(c), c.cols as int)
            &&& plan.ticket_height_mpt == mpt_of(avail_height(c), c.rows as int)
        },
{
    if c.rows == 0 || c.cols == 0 {
        return None;
    }
    let aw: u128 = match available(c.paper_width_um, c.margin_left_um, c.margin_right_um, c.cols, c.spacing_x_um) {
        Some(v) => v as u128,
        None => { return None; },
    };
    let ah: u128 = match available(c.paper_height_um, c.margin_top_um, c.margin_bottom_um, c.rows, c.spacing_y_um) {
        Some(v) => v as u128,
        None => { return None; },
    };
    proof {
        assert(c.rows * c.cols <= 0xffff_ffff * 0xffff_ffff) by (nonlinear_arith)
            requires c.rows <= 0xffff_ffff, c.cols <= 0xffff_ffff;
        assert(c.rows * c.cols >= 1) by (nonlinear_arith)
            requires c.rows >= 1, c.cols >= 1;
    }
    let per: u64 = c.rows as u64 * c.cols as u64;
    let pages_wide: u128 = (count as u128 + per as u128 - 1) / per as u128;
    proof {
        assert((count + per - 1) / (per as int) <= count) by (nonlinear_arith)
            requires per >= 1, count >= 0;
    }
    let pages: usize = pages_wide as usize;
    let mut placements: Vec<ExportPlacement> = Vec::new();
    let mut i: usize = 0;
    while i < count
        invariant
            config_valid(c),
            per == c.rows * c.cols,
            per >= 1,
            aw == avail_width(c),
            ah == avail_height(c),
            i <= count,
            placements@.len() == i,
            forall|j: int| 0 <= j < i ==> #[trigger] placements@[j] == placement_at(c, j),
        decreases count - i,
    {
        let slot: u64 = i as u64 % per;
        let row: u32 = (slot / c.cols as u64) as u32;
        let col: u32 = (slot % c.cols as u64) as u32;
        proof {
            assert(slot < c.cols * c.rows) by (nonlinear_arith)
                requires slot < per, per == c.rows * c.cols;
            crate::stamps::lemma_module_of(slot as int, c.cols as int, c.rows as int);
            assert(row * c.spacing_y_um <= 0xffff_ffff * 0xffff_ffff) by (nonlinear_arith)
                requires row <= 0xffff_ffff, c.spacing_y_um <= 0xffff_ffff;
            let t = c.paper_height_um - c.margin_top_um - row * c.spacing_y_um;
            assert(-0x1_0000_0000_0000_0000 <= t <= 0x1_0000_0000);
            assert(-0x1_0000_0000_0000_0000 * 0x1_0000_0000 <= t * c.rows <= 0x1_0000_0000 * 0x1_0000_0000) by (nonlinear_arith)
                requires -0x1_0000_0000_0000_0000 <= t <= 0x1_0000_0000, 0 <= c.rows <= 0xffff_ffff;
            assert((row + 1) * ah <= 0x1_0000_0000 * 0x1_0000_0000) by (nonlinear_arith)
                requires 0 <= row + 1 <= 0x1_0000_0000, 0 <= ah <= 0x1_0000_0000;
            lemma_y_num_nonneg(c, row as int);
            assert(c.spacing_x_um * c.cols <= 0xffff_ffff * 0xffff_ffff) by (nonlinear_arith)
                requires c.spacing_x_um <= 0xffff_ffff, c.cols <= 0xffff_ffff;
            assert(col * (aw + c.spacing_x_um * c.cols) <= 0xffff_ffff * (0x1_0000_0000 + 0xffff_ffff * 0xffff_ffff)) by (nonlinear_arith)
                requires col <= 0xffff_ffff, aw <= 0x1_0000_0000, 0 <= c.spacing_x_um * c.cols <= 0xffff_ffff * 0xffff_ffff;
            assert((i as int) / (per as int) <= i) by (nonlinear_arith)
                requires per >= 1, i >= 0;
            assert(c.margin_left_um * c.cols <= 0xffff_ffff * 0xffff_ffff) by (nonlinear_arith)
                requires c.margin_left_um <= 0xffff_ffff, c.cols <= 0xffff_ffff;
            assert(y_num(c, row as int) <= (0x1_0000_0000 as int) * 0xffff_ffff) by (nonlinear_arith)
                requires y_num(c, row as int) == (c.paper_height_um - c.margin_top_um - row * c.spacing_y_um) * c.rows - (row + 1) * ah,
                    row >= 0, ah >= 0, c.rows <= 0xffff_ffff, c.paper_height_um <= 0xffff_ffff, c.margin_top_um >= 0, c.spacing_y_um >= 0;
        }
        let xn: u128 = c.margin_left_um as u128 * c.cols as u128 + col as u128 * (aw + c.spacing_x_um as u128 * c.cols as u128);
        let yn: i128 = (c.paper_height_um as i128 - c.margin_top_um as i128 - row as i128 * c.spacing_y_um as i128) * c.rows as i128
            - (row as i128 + 1) * ah as i128;
        let p = ExportPlacement {
            page: (i as u64 / per) as usize,
            row,
            col,
            x_mpt: mpt(xn, c.cols),
            y_mpt: mpt(yn as u128, c.rows),
        };
        placements.push(p);
        i += 1;
    }
    Some(ExportPlan {
        page_count: pages,
        page_width_mpt: mpt(c.paper_width_um as u128, 1),
        page_height_mpt: mpt(c.paper_height_um as u128, 1),
        ticket_width_mpt: mpt(aw, c.cols),
        ticket_height_mpt: mpt(ah, c.rows),
        placements,
    })
}

/// The RGB bytes of RGBA bytes: each pixel's alpha dropped.
pub open spec fn rgb_of(rgba: Seq<u8>) -> Seq<u8> {
    Seq::new(3 * (rgba.len() / 4), |i: int| rgba[4 * (i / 3) + i % 3])
}

/// Drops the alpha channel of RGBA bytes, as the document's images take three
/// channels. A trailing partial pixel is dropped.
pub fn rgba_to_rgb(rgba: &Vec<u8>) -> (r: Vec<u8>)
    ensures
        r@ == rgb_of(rgba@),
{
    let n = rgba.len() / 4;
    let mut out: Vec<u8> = Vec::new();
    let mut i: usize = 0;
    while i < n
        invariant
            n == rgba@.len() / 4,
            rgba@.len() <= usize::MAX,
            i <= n,
            out@ == rgb_of(rgba@).take(3 * i),
        decreases n - i,
    {
        out.push(rgba[4 * i]);
        out.push(rgba[4 * i + 1]);
        out.push(rgba[4 * i + 2]);
        proof {
            assert forall|k: int| 3 * i <= k < 3 * i + 3 implies k / 3 == i && #[trigger] (k % 3) == k - 3 * i by {}
            assert(out@ =~= rgb_of(rgba@).take(3 * (i + 1)));
        }
        i += 1;
    }
    proof {
        assert(out@ =~= rgb_of(rgba@));
    }
    out
}

} // verus!
