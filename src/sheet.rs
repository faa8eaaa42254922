//! Sheet assembly: tickets placed row-major on the grid of a page.
use vstd::prelude::*;
use crate::geometry::{SheetConfig, SheetLayout, Placement, config_valid, layout_of, compute_layout, fit_template, placement_of, mm_to_px, px_of};
use crate::raster::{Rgba, Raster, rgba_bytes, pixels_of_bytes, composite_pixels, lemma_rgba_bytes_len};
use crate::outside::{font_parses, encode_png, png_of};
use crate::stamps::{Stamp, fits, raster_fits, min_int, white, lemma_module_of};
use crate::ticket::{TemplateData, TicketError, TicketRenderer, TicketModel, ticket_pixels, ticket_failure};
use crate::template::{record_view, fields_map, keys_unique, lemma_field_order_irrelevant};

verus! {

/// Everything one raster render needs besides the template and font bytes.
#[derive(Debug)]
pub struct RenderConfig {
    pub sheet_config: SheetConfig,
    pub template_width: u32,
    pub template_height: u32,
    pub stamps: Vec<Stamp>,
    pub records: Vec<Vec<(String, String)>>,
    /// The resolution in hundredths of a dot per inch.
    pub dpi_centi: u32,
}

/// Why a sheet could not be produced.
#[derive(Clone, Copy, Debug, PartialEq, Eq, Structural)]
pub enum SheetError {
    /// The grid is empty or a ticket would have no positive width or height.
    InvalidTicketDimensions,
    /// The template bytes are not `width * height * 4`.
    TemplateLength { expected: u128, actual: usize },
    /// The ticket at `index` could not be rendered.
    Ticket { index: usize, cause: TicketError },
    /// The page would not fit in memory.
    TooLarge,
    /// Pre-rendered tickets were said to have no pixels.
    ZeroTicketSize,
    /// The grid has no rows or no columns.
    DegenerateGrid,
    /// Not one whole pre-rendered ticket is present.
    NoTickets,
    /// The font bytes do not parse.
    InvalidFont,
}

/// Where grid cell `index` starts along one axis: `margin + k * (ticket + spacing)`,
/// with `k` the cell's column (or row).
pub open spec fn cell_start(margin: int, k: int, ticket: int, spacing: int) -> int {
    margin + k * (ticket + spacing)
}

/// `page` with the `tw` x `th` ticket `t` blended at `(x, y)`; a corner
/// beyond the page leaves the page as it is.
pub open spec fn place(page: Seq<Rgba>, pw: int, ph: int, t: Seq<Rgba>, tw: int, th: int, x: int, y: int) -> Seq<Rgba> {
    composite_pixels(page, pw, ph, t, tw, th, min_int(x, pw), min_int(y, ph))
}

/// A page of `w` x `h` opaque white pixels.
pub open spec fn white_page(w: int, h: int) -> Seq<Rgba> {
    Seq::new((w * h) as nat, |i: int| white())
}

/// The preview page after the tickets of the first `n` records have been
/// rendered at the scaled template size and placed, each centred in its cell;
/// `None` where one of them fails.
pub open spec fn preview_after(
    r: TicketModel,
    records: Seq<Map<Seq<char>, Seq<char>>>,
    lay: SheetLayout,
    pl: Placement,
    n: int,
) -> Option<Seq<Rgba>>
    decreases n,
{
    if n <= 0 {
        Some(white_page(lay.page_width_px as int, lay.page_height_px as int))
    } else {
        match preview_after(r, records, lay, pl, n - 1) {
            None => None,
            Some(page) => match ticket_pixels(r, records[n - 1], pl.width as int, pl.height as int) {
                None => None,
                Some(t) => {
                    let i = n - 1;
                    let x = cell_start(lay.margin_left_px as int, i % (lay.cols as int), lay.ticket_width_px as int, lay.spacing_x_px as int) + pl.offset_x;
                    let y = cell_start(lay.margin_top_px as int, i / (lay.cols as int), lay.ticket_height_px as int, lay.spacing_y_px as int) + pl.offset_y;
                    Some(place(page, lay.page_width_px as int, lay.page_height_px as int, t, pl.width as int, pl.height as int, x, y))
                },
            },
        }
    }
}

/// How many records the single preview page holds.
pub open spec fn preview_count(records: int, rows: int, cols: int) -> int {
    if records < rows * cols { records } else { rows * cols }
}

/// A white page of `w` x `h`.
fn white_raster(w: usize, h: usize) -> (r: Raster)
    requires
        w * h <= usize::MAX,
    ensures
        r.wf(),
        r.width == w,
        r.height == h,
        r.pixels@ == white_page(w as int, h as int),
{
    let r = Raster::filled(w, h, Rgba { r: 255, g: 255, b: 255, a: 255 });
    proof {
        assert(r.pixels@ =~= white_page(w as int, h as int));
    }
    r
}

/// Blends `t` onto `page` at `(x, y)`, which may lie beyond the page.
fn place_on(page: &mut Raster, t: &Raster, x: u128, y: u128)
    requires
        old(page).wf(),
        t.wf(),
    ensures
        final(page).wf(),
        final(page).width == old(page).width,
        final(page).height == old(page).height,
        final(page).pixels@ == place(old(page).pixels@, old(page).width as int, old(page).height as int, t.pixels@, t.width as int, t.height as int, x as int, y as int),
{
    let cx: usize = if x < page.width as u128 { x as usize } else { page.width };
    let cy: usize = if y < page.height as u128 { y as usize } else { page.height };
    page.composite(t, cx, cy);
}

/// Renders the tickets of the records that fit on one page and places them.
fn render_page(r: &TicketRenderer, records: &Vec<Vec<(String, String)>>, lay: SheetLayout, pl: Placement) -> (res: Result<Raster, SheetError>)
    requires
        r.wf(),
        lay.cols > 0,
        fits(lay.page_width_px as int, lay.page_height_px as int),
        pl.width <= 0xffff_ffff,
        pl.height <= 0xffff_ffff,
    ensures
        ({
            let recs = records@.map_values(|rec: Vec<(String, String)>| record_view(rec@));
            let n = preview_count(records@.len() as int, lay.rows as int, lay.cols as int);
            &&& (res matches Ok(page) ==> page.wf() && page.width == lay.page_width_px && page.height == lay.page_height_px
                && preview_after(r.model(), recs, lay, pl, n) == Some(page.pixels@))
            &&& (res is Err ==> res matches Err(SheetError::Ticket { index, cause }))
            &&& (res matches Err(SheetError::Ticket { index, cause }) ==> index < n
                && ticket_failure(r.model(), recs[index as int], pl.width as int, pl.height as int) == Some(cause)
                && forall|k: int| 0 <= k < index ==> #[trigger] ticket_failure(r.model(), recs[k], pl.width as int, pl.height as int) is None)
            &&& (res is Ok <==> forall|k: int| 0 <= k < n ==> #[trigger] ticket_failure(r.model(), recs[k], pl.width as int, pl.height as int) is None)
            &&& (res matches Err(SheetError::Ticket { index, cause: TicketError::Stamp { index: j, cause: crate::stamps::StampError::QrEncoding } }) ==> preview_after(r.model(), recs, lay, pl, n) is None)
        }),
{
    let ghost recs = records@.map_values(|rec: Vec<(String, String)>| record_view(rec@));
    proof {
        assert(lay.page_width_px * lay.page_height_px <= usize::MAX) by (nonlinear_arith)
            requires lay.page_width_px * lay.page_height_px * 4 <= usize::MAX, lay.page_width_px >= 0, lay.page_height_px >= 0;
    }
    let mut page = white_raster(lay.page_width_px as usize, lay.page_height_px as usize);
    proof {
        assert(lay.rows * lay.cols <= 0xffff_ffff * 0xffff_ffff) by (nonlinear_arith)
            requires lay.rows <= 0xffff_ffff, lay.cols <= 0xffff_ffff;
    }
    let per_page: u64 = lay.rows as u64 * lay.cols as u64;
    let n: usize = if (records.len() as u128) < per_page as u128 { records.len() } else { per_page as usize };
    let mut i: usize = 0;
    while i < n
        invariant
            r.wf(),
            lay.cols > 0,
            n == preview_count(records@.len() as int, lay.rows as int, lay.cols as int),
            n <= records@.len(),
            n <= lay.rows * lay.cols,
            recs == records@.map_values(|rec: Vec<(String, String)>| record_view(rec@)),
            pl.width <= 0xffff_ffff,
            pl.height <= 0xffff_ffff,
            i <= n,
            page.wf(),
            page.width == lay.page_width_px,
            page.height == lay.page_height_px,
            preview_after(r.model(), recs, lay, pl, i as int) == Some(page.pixels@),
            forall|k: int| 0 <= k < i ==> #[trigger] ticket_failure(r.model(), recs[k], pl.width as int, pl.height as int) is None,
        decreases n - i,
    {
        proof {
            assert(recs[i as int] == record_view(records@[i as int]@));
        }
        let ticket = match r.render(&records[i], pl.width as u32, pl.height as u32) {
            Ok(t) => t,
            Err(cause) => {
                proof {
                    if cause matches TicketError::Stamp { index: _, cause: crate::stamps::StampError::QrEncoding } {
                        assert(recs[i as int] == record_view(records@[i as int]@));
                        lemma_preview_none_extends(r.model(), recs, lay, pl, i as int + 1, n as int);
                    }
                }
                return Err(SheetError::Ticket { index: i, cause });
            },
        };
        let row: u128 = (i / lay.cols as usize) as u128;
        let col: u128 = (i % lay.cols as usize) as u128;
        proof {
            assert(i < lay.cols * lay.rows) by (nonlinear_arith)
                requires i < n, n <= lay.rows * lay.cols;
            lemma_module_of(i as int, lay.cols as int, lay.rows as int);
            assert(col * (lay.ticket_width_px + lay.spacing_x_px) <= 0xffff_ffff * (2 * 0xffff_ffff_ffff_ffff)) by (nonlinear_arith)
                requires col <= 0xffff_ffff, 0 <= lay.ticket_width_px + lay.spacing_x_px <= 2 * 0xffff_ffff_ffff_ffff;
            assert(row * (lay.ticket_height_px + lay.spacing_y_px) <= 0xffff_ffff * (2 * 0xffff_ffff_ffff_ffff)) by (nonlinear_arith)
                requires row <= 0xffff_ffff, 0 <= lay.ticket_height_px + lay.spacing_y_px <= 2 * 0xffff_ffff_ffff_ffff;
        }
        let x: u128 = lay.margin_left_px as u128 + col * (lay.ticket_width_px as u128 + lay.spacing_x_px as u128) + pl.offset_x as u128;
        let y: u128 = lay.margin_top_px as u128 + row * (lay.ticket_height_px as u128 + lay.spacing_y_px as u128) + pl.offset_y as u128;
        proof {
            assert(recs[i as int] == record_view(records@[i as int]@));
        }
        place_on(&mut page, &ticket, x, y);
        i += 1;
    }
    Ok(page)
}

/// The preview that `render_sheet` owes for a valid request: the raster
/// bytes of its single page, or `None` where a ticket fails.
pub open spec fn sheet_bytes(
    cfg: SheetConfig,
    dpi: int,
    m: TicketModel,
    recs: Seq<Map<Seq<char>, Seq<char>>>,
) -> Option<Seq<u8>> {
    let lay = layout_of(cfg, dpi);
    let pl = placement_of(m.w0, m.h0, lay.ticket_width_px as int, lay.ticket_height_px as int);
    match preview_after(m, recs, lay, pl, preview_count(recs.len() as int, cfg.rows as int, cfg.cols as int)) {
        Some(p) => Some(rgba_bytes(p)),
        None => None,
    }
}

/// The order of each record's fields does not change the sheet: records whose
/// field names are distinct and which hold the same fields, record by record,
/// give the same bytes.
pub proof fn lemma_sheet_field_order_irrelevant(
    cfg: SheetConfig,
    dpi: int,
    m: TicketModel,
    a: Seq<Seq<(Seq<char>, Seq<char>)>>,
    b: Seq<Seq<(Seq<char>, Seq<char>)>>,
)
    requires
        a.len() == b.len(),
        forall|k: int| 0 <= k < a.len() ==> keys_unique(#[trigger] a[k]) && keys_unique(b[k]) && a[k].to_set() == b[k].to_set(),
    ensures
        sheet_bytes(cfg, dpi, m, a.map_values(|f: Seq<(Seq<char>, Seq<char>)>| fields_map(f)))
            == sheet_bytes(cfg, dpi, m, b.map_values(|f: Seq<(Seq<char>, Seq<char>)>| fields_map(f))),
{
    let ma = a.map_values(|f: Seq<(Seq<char>, Seq<char>)>| fields_map(f));
    let mb = b.map_values(|f: Seq<(Seq<char>, Seq<char>)>| fields_map(f));
    assert forall|k: int| 0 <= k < a.len() implies ma[k] == mb[k] by {
        lemma_field_order_irrelevant(a[k], b[k], Seq::empty());
    }
    assert(ma =~= mb);
}

/// The records of a request as field sequences.
pub open spec fn records_view(records: Seq<Vec<(String, String)>>) -> Seq<Map<Seq<char>, Seq<char>>> {
    records.map_values(|rec: Vec<(String, String)>| record_view(rec@))
}

/// Renders the first page of a sheet as raw RGBA bytes: a white page of the
/// paper's size at the request's resolution with one ticket per record, row-major, until the page
/// is full; further records are not rendered. Each ticket is the template
/// scaled uniformly into its cell and centred there, under its stamps.
///
/// Fails, before anything is drawn, on an empty grid or tickets without a
/// positive size, on a page too large to address, on template bytes that are
/// not `width * height * 4`, on font bytes that do not parse, on a scaled
/// template too large to address; and then where a ticket fails, naming the
/// first record whose ticket fails.
pub fn render_sheet(request: RenderConfig, template_data: &Vec<u8>, font_data: Vec<u8>) -> (r: Result<Vec<u8>, SheetError>)
    ensures
        ({
            let cfg = request.sheet_config;
            let dpi = request.dpi_centi as int;
            let lay = layout_of(cfg, dpi);
            let (w0, h0) = (request.template_width as int, request.template_height as int);
            let len_ok = template_data@.len() == w0 * h0 * 4;
            let page_ok = fits(lay.page_width_px as int, lay.page_height_px as int);
            let m = TicketModel {
                template: pixels_of_bytes(template_data@),
                w0,
                h0,
                font: font_data@,
                stamps: request.stamps@,
            };
            &&& (r == Err::<Vec<u8>, SheetError>(SheetError::InvalidTicketDimensions) <==> !config_valid(cfg))
            &&& (r matches Err(SheetError::TemplateLength { expected, actual }) <==> config_valid(cfg) && page_ok && !len_ok)
            &&& (r matches Err(SheetError::TemplateLength { expected, actual }) ==> expected == w0 * h0 * 4 && actual == template_data@.len())
            &&& (r == Err::<Vec<u8>, SheetError>(SheetError::InvalidFont) <==> config_valid(cfg) && page_ok && len_ok && !font_parses(font_data@))
            &&& (r matches Ok(bytes) ==> config_valid(cfg) && page_ok && len_ok && font_parses(font_data@)
                && sheet_bytes(cfg, dpi, m, records_view(request.records@)) == Some(bytes@))
            &&& (r matches Err(SheetError::Ticket { index, cause: TicketError::Stamp { index: j, cause: crate::stamps::StampError::QrEncoding } })
                ==> sheet_bytes(cfg, dpi, m, records_view(request.records@)) is None)
            &&& (r == Err::<Vec<u8>, SheetError>(SheetError::TooLarge) <==> config_valid(cfg) && (!page_ok || (len_ok && font_parses(font_data@) && ({
                let pl = placement_of(w0, h0, lay.ticket_width_px as int, lay.ticket_height_px as int);
                !(pl.width <= 0xffff_ffff && pl.height <= 0xffff_ffff)
            }))))
            &&& (r is Ok ==> ({
                let pl = placement_of(w0, h0, lay.ticket_width_px as int, lay.ticket_height_px as int);
                let recs = records_view(request.records@);
                forall|k: int| 0 <= k < preview_count(recs.len() as int, cfg.rows as int, cfg.cols as int)
                    ==> #[trigger] ticket_failure(m, recs[k], pl.width as int, pl.height as int) is None
            }))
            &&& (r matches Err(SheetError::Ticket { index, cause }) ==> ({
                let pl = placement_of(w0, h0, lay.ticket_width_px as int, lay.ticket_height_px as int);
                let recs = records_view(request.records@);
                &&& ticket_failure(m, recs[index as int], pl.width as int, pl.height as int) == Some(cause)
                &&& forall|k: int| 0 <= k < index ==> #[trigger] ticket_failure(m, recs[k], pl.width as int, pl.height as int) is None
            }))
            &&& (config_valid(cfg) && page_ok && len_ok && font_parses(font_data@) && ({
                let pl = placement_of(w0, h0, lay.ticket_width_px as int, lay.ticket_height_px as int);
                let recs = records_view(request.records@);
                &&& pl.width <= 0xffff_ffff
                &&& pl.height <= 0xffff_ffff
                &&& forall|k: int| 0 <= k < preview_count(recs.len() as int, cfg.rows as int, cfg.cols as int)
                    ==> #[trigger] ticket_failure(m, recs[k], pl.width as int, pl.height as int) is None
            }) ==> r is Ok)
        }),
{
    let cfg = request.sheet_config;
    let lay = match compute_layout(cfg, request.dpi_centi) {
        Some(l) => l,
        None => { return Err(SheetError::InvalidTicketDimensions); },
    };
    if !raster_fits(lay.page_width_px, lay.page_height_px) {
        return Err(SheetError::TooLarge);
    }
    let w0 = request.template_width;
    let h0 = request.template_height;
    proof {
        assert(w0 * h0 * 4 <= 0xffff_ffff * 0xffff_ffff * 4) by (nonlinear_arith)
            requires w0 <= 0xffff_ffff, h0 <= 0xffff_ffff;
    }
    let expected: u128 = w0 as u128 * h0 as u128 * 4;
    if template_data.len() as u128 != expected {
        return Err(SheetError::TemplateLength { expected, actual: template_data.len() });
    }
    let pl = fit_template(w0, h0, lay.ticket_width_px, lay.ticket_height_px);
    let template = TemplateData { width: w0, height: h0, data: template_data.clone() };
    proof {
        assert(template.data@ == template_data@);
    }
    let renderer = match TicketRenderer::new(template, request.stamps, font_data) {
        Ok(t) => t,
        Err(_) => { return Err(SheetError::InvalidFont); },
    };
    if pl.width > 0xffff_ffff || pl.height > 0xffff_ffff {
        return Err(SheetError::TooLarge);
    }
    let page = match render_page(&renderer, &request.records, lay, pl) {
        Ok(p) => p,
        Err(e) => { return Err(e); },
    };
    proof {
        assert(page.pixels@.len() * 4 <= usize::MAX) by (nonlinear_arith)
            requires page.pixels@.len() == page.width * page.height, page.width * page.height * 4 <= usize::MAX;
    }
    let bytes = page.to_rgba_bytes();
    Ok(bytes)
}

/// The resolution at which pre-rendered tickets are laid out, 300 dpi, in
/// hundredths of a dot per inch.
pub const PREVIEW_DPI: u32 = 30_000;

/// The page after the first `n` pre-rendered `tw` x `th` tickets of `data`
/// have been placed at `margin + k * (ticket + spacing)`, with the margins and
/// spacing rounded at `PREVIEW_DPI`.
pub open spec fn grid_after(cfg: SheetConfig, data: Seq<u8>, tw: int, th: int, n: int) -> Seq<Rgba>
    decreases n,
{
    let dpi = PREVIEW_DPI as int;
    let pw = px_of(cfg.paper_width_um as int, dpi);
    let ph = px_of(cfg.paper_height_um as int, dpi);
    if n <= 0 {
        white_page(pw, ph)
    } else {
        let i = n - 1;
        let per = tw * th * 4;
        let t = pixels_of_bytes(data.subrange(i * per, i * per + per));
        let x = cell_start(px_of(cfg.margin_left_um as int, dpi), i % (cfg.cols as int), tw, px_of(cfg.spacing_x_um as int, dpi));
        let y = cell_start(px_of(cfg.margin_top_um as int, dpi), i / (cfg.cols as int), th, px_of(cfg.spacing_y_um as int, dpi));
        place(grid_after(cfg, data, tw, th, n - 1), pw, ph, t, tw, th, x, y)
    }
}

/// Copies `v[start..end]`.
fn copy_range(v: &Vec<u8>, start: usize, end: usize) -> (r: Vec<u8>)
    requires
        start <= end <= v@.len(),
    ensures
        r@ == v@.subrange(start as int, end as int),
{
    let mut out: Vec<u8> = Vec::new();
    let mut i: usize = start;
    while i < end
        invariant
            start <= i <= end,
            end <= v@.len(),
            out@ == v@.subrange(start as int, i as int),
        decreases end - i,
    {
        out.push(v[i]);
        i += 1;
        proof {
            assert(out@ =~= v@.subrange(start as int, i as int));
        }
    }
    out
}

/// Lays out pre-rendered tickets of `ticket_width_px` x `ticket_height_px`
/// (RGBA bytes, one ticket after another) on one page at `PREVIEW_DPI`, as
/// many as are whole and fit on the page; no ticket is scaled. Fails on a
/// ticket size of zero, then on an empty grid, then where not one whole ticket
/// is present, then on a page or ticket too large to address.
pub fn compose_preview(config: SheetConfig, image_data: &Vec<u8>, ticket_width_px: u32, ticket_height_px: u32) -> (r: Result<Raster, SheetError>)
    ensures
        ({
            let (tw, th) = (ticket_width_px as int, ticket_height_px as int);
            let per = tw * th * 4;
            let zero = tw == 0 || th == 0;
            let degenerate = config.rows == 0 || config.cols == 0;
            let total: int = if zero { 0 } else { (image_data@.len() as int) / per };
            &&& (r == Err::<Raster, SheetError>(SheetError::ZeroTicketSize) <==> zero)
            &&& (r == Err::<Raster, SheetError>(SheetError::DegenerateGrid) <==> !zero && degenerate)
            &&& (r == Err::<Raster, SheetError>(SheetError::NoTickets) <==> !zero && !degenerate && total == 0)
            &&& (r == Err::<Raster, SheetError>(SheetError::TooLarge) <==> !zero && !degenerate && total > 0 && !(fits(tw, th) && fits(
                px_of(config.paper_width_um as int, PREVIEW_DPI as int),
                px_of(config.paper_height_um as int, PREVIEW_DPI as int),
            )))
            &&& (r is Err ==> r == Err::<Raster, SheetError>(SheetError::ZeroTicketSize) || r == Err::<Raster, SheetError>(SheetError::DegenerateGrid)
                || r == Err::<Raster, SheetError>(SheetError::NoTickets) || r == Err::<Raster, SheetError>(SheetError::TooLarge))
            &&& (r matches Ok(page) ==> page.wf() && fits(page.width as int, page.height as int)
                && page.width == px_of(config.paper_width_um as int, PREVIEW_DPI as int)
                && page.height == px_of(config.paper_height_um as int, PREVIEW_DPI as int)
                && page.pixels@ == grid_after(config, image_data@, tw, th, preview_count(total, config.rows as int, config.cols as int)))
        }),
{
    if ticket_width_px == 0 || ticket_height_px == 0 {
        return Err(SheetError::ZeroTicketSize);
    }
    if config.rows == 0 || config.cols == 0 {
        return Err(SheetError::DegenerateGrid);
    }
    proof {
        assert(ticket_width_px * ticket_height_px * 4 <= 0xffff_ffff * 0xffff_ffff * 4) by (nonlinear_arith)
            requires ticket_width_px <= 0xffff_ffff, ticket_height_px <= 0xffff_ffff;
        assert(ticket_width_px * ticket_height_px * 4 >= 4) by (nonlinear_arith)
            requires ticket_width_px >= 1, ticket_height_px >= 1;
    }
    let per: u128 = ticket_width_px as u128 * ticket_height_px as u128 * 4;
    let total: u128 = image_data.len() as u128 / per;
    if total == 0 {
        return Err(SheetError::NoTickets);
    }
    if !raster_fits(ticket_width_px as u64, ticket_height_px as u64) {
        return Err(SheetError::TooLarge);
    }
    let pw = mm_to_px(config.paper_width_um, PREVIEW_DPI);
    let ph = mm_to_px(config.paper_height_um, PREVIEW_DPI);
    if !raster_fits(pw, ph) {
        return Err(SheetError::TooLarge);
    }
    let ml = mm_to_px(config.margin_left_um, PREVIEW_DPI);
    let mt = mm_to_px(config.margin_top_um, PREVIEW_DPI);
    let sx = mm_to_px(config.spacing_x_um, PREVIEW_DPI);
    let sy = mm_to_px(config.spacing_y_um, PREVIEW_DPI);
    proof {
        assert(config.rows * config.cols <= 0xffff_ffff * 0xffff_ffff) by (nonlinear_arith)
            requires config.rows <= 0xffff_ffff, config.cols <= 0xffff_ffff;
        assert(pw * ph <= usize::MAX) by (nonlinear_arith)
            requires pw * ph * 4 <= usize::MAX, pw >= 0, ph >= 0;
        assert(total * per <= image_data@.len()) by (nonlinear_arith)
            requires total == (image_data@.len() as int) / (per as int), per >= 1;
    }
    let per_page: u128 = config.rows as u128 * config.cols as u128;
    let n: usize = if total < per_page { total as usize } else { per_page as usize };
    let per_u: usize = per as usize;
    let _len = image_data.len();
    let mut page = white_raster(pw as usize, ph as usize);
    let mut i: usize = 0;
    while i < n
        invariant
            config.cols > 0,
            n == preview_count(total as int, config.rows as int, config.cols as int),
            n <= total,
            n <= config.rows * config.cols,
            per == ticket_width_px * ticket_height_px * 4,
            per_u == per,
            total * per <= image_data@.len(),
            image_data@.len() <= usize::MAX,
            fits(pw as int, ph as int),
            fits(ticket_width_px as int, ticket_height_px as int),
            i <= n,
            page.wf(),
            page.width == pw,
            page.height == ph,
            ml == px_of(config.margin_left_um as int, PREVIEW_DPI as int),
            mt == px_of(config.margin_top_um as int, PREVIEW_DPI as int),
            sx == px_of(config.spacing_x_um as int, PREVIEW_DPI as int),
            sy == px_of(config.spacing_y_um as int, PREVIEW_DPI as int),
            pw == px_of(config.paper_width_um as int, PREVIEW_DPI as int),
            ph == px_of(config.paper_height_um as int, PREVIEW_DPI as int),
            page.pixels@ == grid_after(config, image_data@, ticket_width_px as int, ticket_height_px as int, i as int),
        decreases n - i,
    {
        proof {
            assert(i * per + per <= total * per) by (nonlinear_arith)
                requires i < n, n <= total, per >= 0;
        }
        let start: usize = i * per_u;
        let bytes = copy_range(image_data, start, start + per_u);
        let ticket = match Raster::from_rgba_bytes(ticket_width_px as usize, ticket_height_px as usize, &bytes) {
            Some(t) => t,
            None => {
                proof {
                    assert(false);
                }
                return Err(SheetError::TooLarge);
            },
        };
        let row: u128 = (i / config.cols as usize) as u128;
        let col: u128 = (i % config.cols as usize) as u128;
        proof {
            assert(i < config.cols * config.rows) by (nonlinear_arith)
                requires i < n, n <= config.rows * config.cols;
            lemma_module_of(i as int, config.cols as int, config.rows as int);
            assert(col * (ticket_width_px + sx) <= 0xffff_ffff * (2 * 0xffff_ffff_ffff_ffff)) by (nonlinear_arith)
                requires col <= 0xffff_ffff, 0 <= ticket_width_px + sx <= 2 * 0xffff_ffff_ffff_ffff;
            assert(row * (ticket_height_px + sy) <= 0xffff_ffff * (2 * 0xffff_ffff_ffff_ffff)) by (nonlinear_arith)
                requires row <= 0xffff_ffff, 0 <= ticket_height_px + sy <= 2 * 0xffff_ffff_ffff_ffff;
        }
        let x: u128 = ml as u128 + col * (ticket_width_px as u128 + sx as u128);
        let y: u128 = mt as u128 + row * (ticket_height_px as u128 + sy as u128);
        place_on(&mut page, &ticket, x, y);
        i += 1;
    }
    Ok(page)
}

/// The PNG file `generate_preview_png` owes for a composed preview page.
pub open spec fn preview_png_of(page: Seq<Rgba>, w: int, h: int) -> Option<Seq<u8>> {
    png_of(rgba_bytes(page), w as nat, h as nat)
}

/// Lays out pre-rendered tickets as `compose_preview` does and encodes the
/// page as PNG. Fails as `compose_preview` does, or with `TooLarge` where the
/// encoder reports an error; succeeds otherwise.
pub fn generate_preview_png(config: SheetConfig, image_data: &Vec<u8>, ticket_width_px: u32, ticket_height_px: u32) -> (r: Result<Vec<u8>, SheetError>)
    ensures
        ({
            let (tw, th) = (ticket_width_px as int, ticket_height_px as int);
            let zero = tw == 0 || th == 0;
            let degenerate = config.rows == 0 || config.cols == 0;
            let total: int = if zero { 0 } else { (image_data@.len() as int) / (tw * th * 4) };
            let pw = px_of(config.paper_width_um as int, PREVIEW_DPI as int);
            let ph = px_of(config.paper_height_um as int, PREVIEW_DPI as int);
            &&& (r == Err::<Vec<u8>, SheetError>(SheetError::ZeroTicketSize) <==> zero)
            &&& (r == Err::<Vec<u8>, SheetError>(SheetError::DegenerateGrid) <==> !zero && degenerate)
            &&& (r == Err::<Vec<u8>, SheetError>(SheetError::NoTickets) <==> !zero && !degenerate && total == 0)
            &&& (r == Err::<Vec<u8>, SheetError>(SheetError::TooLarge) <==> !zero && !degenerate && total > 0 && (!(fits(tw, th) && fits(pw, ph))
                || preview_png_of(grid_after(config, image_data@, tw, th, preview_count(total, config.rows as int, config.cols as int)), pw, ph) is None))
            &&& (r is Err ==> r == Err::<Vec<u8>, SheetError>(SheetError::ZeroTicketSize) || r == Err::<Vec<u8>, SheetError>(SheetError::DegenerateGrid)
                || r == Err::<Vec<u8>, SheetError>(SheetError::NoTickets) || r == Err::<Vec<u8>, SheetError>(SheetError::TooLarge))
            &&& (r matches Ok(png) ==> preview_png_of(
                grid_after(config, image_data@, tw, th, preview_count(total, config.rows as int, config.cols as int)),
                pw,
                ph,
            ) == Some(png@))
        }),
{
    let page = match compose_preview(config, image_data, ticket_width_px, ticket_height_px) {
        Ok(p) => p,
        Err(e) => { return Err(e); },
    };
    proof {
        assert(page.pixels@.len() * 4 <= usize::MAX) by (nonlinear_arith)
            requires page.pixels@.len() == page.width * page.height, page.width * page.height * 4 <= usize::MAX;
        lemma_rgba_bytes_len(page.pixels@);
    }
    let bytes = page.to_rgba_bytes();
    let ghost tw = ticket_width_px as int;
    let ghost th = ticket_height_px as int;
    let ghost total: int = (image_data@.len() as int) / (tw * th * 4);
    let ghost grid = grid_after(config, image_data@, tw, th, preview_count(total, config.rows as int, config.cols as int));
    proof {
        assert(tw > 0 && th > 0 && config.rows > 0 && config.cols > 0);
        assert(tw * th * 4 > 0) by (nonlinear_arith)
            requires tw > 0, th > 0;
        assert(total >= 0) by (nonlinear_arith)
            requires total == (image_data@.len() as int) / (tw * th * 4), tw * th * 4 > 0;
        assert(total != 0);
        assert(fits(tw, th));
        assert(page.pixels@ == grid);
        assert(bytes@ == rgba_bytes(grid));
    }
    match encode_png(bytes, page.width as u32, page.height as u32) {
        Some(png) => Ok(png),
        None => Err(SheetError::TooLarge),
    }
}

proof fn lemma_preview_none_extends(
    r: TicketModel,
    recs: Seq<Map<Seq<char>, Seq<char>>>,
    lay: SheetLayout,
    pl: Placement,
    k: int,
    n: int,
)
    requires
        1 <= k <= n,
        preview_after(r, recs, lay, pl, k) is None || (preview_after(r, recs, lay, pl, k - 1) is Some
            && ticket_pixels(r, recs[k - 1], pl.width as int, pl.height as int) is None),
    ensures
        preview_after(r, recs, lay, pl, n) is None,
    decreases n - k,
{
    assert(preview_after(r, recs, lay, pl, k) is None);
    if k < n {
        lemma_preview_none_extends(r, recs, lay, pl, k + 1, n);
    }
}

} // verus!
