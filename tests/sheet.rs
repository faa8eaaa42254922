use ticket_sheet::geometry::SheetConfig;
use ticket_sheet::sheet::{compose_preview, generate_preview_png, render_sheet, RenderConfig, SheetError};
use ticket_sheet::ticket::{TemplateData, TicketError, TicketRenderer};

fn small_sheet(rows: u32, cols: u32) -> SheetConfig {
    // 25.4 mm x 25.4 mm paper: 300 x 300 px at 300 dpi, no margins.
    SheetConfig {
        paper_width_um: 25_400,
        paper_height_um: 25_400,
        rows,
        cols,
        margin_top_um: 0,
        margin_right_um: 0,
        margin_bottom_um: 0,
        margin_left_um: 0,
        spacing_x_um: 0,
        spacing_y_um: 0,
    }
}

fn request(cfg: SheetConfig, w: u32, h: u32) -> RenderConfig {
    RenderConfig {
        sheet_config: cfg,
        template_width: w,
        template_height: h,
        stamps: Vec::new(),
        records: vec![Vec::new()],
        dpi_centi: 30_000,
    }
}

#[test]
fn render_sheet_rejects_degenerate_grid() {
    let r = render_sheet(request(small_sheet(0, 1), 1, 1), &vec![0; 4], Vec::new());
    assert_eq!(r.unwrap_err(), SheetError::InvalidTicketDimensions);
}

#[test]
fn render_sheet_rejects_negative_ticket_size() {
    let mut cfg = small_sheet(1, 1);
    cfg.margin_left_um = 20_000;
    cfg.margin_right_um = 5_400;
    let r = render_sheet(request(cfg, 1, 1), &vec![0; 4], Vec::new());
    assert_eq!(r.unwrap_err(), SheetError::InvalidTicketDimensions);
}

#[test]
fn render_sheet_rejects_template_length() {
    let r = render_sheet(request(small_sheet(1, 1), 2, 2), &vec![0; 15], Vec::new());
    assert_eq!(r.unwrap_err(), SheetError::TemplateLength { expected: 16, actual: 15 });
}

#[test]
fn render_sheet_accepts_empty_template() {
    // The template passes its checks; only the font is left to fail.
    let r = render_sheet(request(small_sheet(1, 1), 0, 5), &Vec::new(), vec![7; 9]);
    assert_eq!(r.unwrap_err(), SheetError::InvalidFont);
}

#[test]
fn render_sheet_rejects_unreadable_font() {
    let r = render_sheet(request(small_sheet(1, 1), 1, 1), &vec![0; 4], vec![1, 2, 3]);
    assert_eq!(r.unwrap_err(), SheetError::InvalidFont);
}

#[test]
fn renderer_rejects_bad_template_and_font() {
    let t = TemplateData { width: 2, height: 1, data: vec![0; 7] };
    assert_eq!(TicketRenderer::new(t, Vec::new(), Vec::new()).unwrap_err(), TicketError::InvalidTemplate);
    let t = TemplateData { width: 2, height: 1, data: vec![0; 8] };
    assert_eq!(TicketRenderer::new(t, Vec::new(), vec![0; 16]).unwrap_err(), TicketError::InvalidFont);
    let t = TemplateData { width: 0, height: 0, data: Vec::new() };
    assert_eq!(TicketRenderer::new(t, Vec::new(), vec![0; 16]).unwrap_err(), TicketError::InvalidFont);
}

#[test]
fn preview_rejects_zero_ticket_size() {
    assert_eq!(compose_preview(small_sheet(1, 1), &vec![0; 16], 0, 2).unwrap_err(), SheetError::ZeroTicketSize);
}

#[test]
fn preview_rejects_degenerate_grid() {
    assert_eq!(compose_preview(small_sheet(0, 1), &vec![0; 16], 2, 2).unwrap_err(), SheetError::DegenerateGrid);
}

#[test]
fn preview_rejects_missing_tickets() {
    assert_eq!(compose_preview(small_sheet(1, 1), &vec![0; 15], 2, 2).unwrap_err(), SheetError::NoTickets);
}

#[test]
fn preview_places_tickets_row_major_and_drops_overflow() {
    // Three 1x1 tickets on a 1x2 grid: the third does not fit the page.
    let data = vec![255, 0, 0, 255, 0, 255, 0, 255, 0, 0, 255, 255];
    let page = compose_preview(small_sheet(1, 2), &data, 1, 1).unwrap();
    assert_eq!((page.width, page.height), (300, 300));
    let bytes = page.to_rgba_bytes();
    assert_eq!(&bytes[0..4], &[255, 0, 0, 255]);
    assert_eq!(&bytes[4..8], &[0, 255, 0, 255]);
    assert_eq!(&bytes[8..12], &[255, 255, 255, 255]);
    assert!(!bytes.chunks(4).any(|p| p == [0, 0, 255, 255]));
}

#[test]
fn preview_blends_translucent_tickets_on_white() {
    let page = compose_preview(small_sheet(1, 1), &vec![0, 0, 0, 0], 1, 1).unwrap();
    assert_eq!(&page.to_rgba_bytes()[0..4], &[255, 255, 255, 255]);
}

#[test]
fn preview_is_deterministic() {
    let data: Vec<u8> = (0..64u8).collect();
    let a = compose_preview(small_sheet(2, 2), &data, 2, 2).unwrap().to_rgba_bytes();
    let b = compose_preview(small_sheet(2, 2), &data, 2, 2).unwrap().to_rgba_bytes();
    assert_eq!(a, b);
}

#[test]
fn preview_png_has_png_signature() {
    let png = generate_preview_png(small_sheet(1, 1), &vec![10, 20, 30, 255], 1, 1).unwrap();
    assert_eq!(&png[0..8], &[0x89, b'P', b'N', b'G', 0x0d, 0x0a, 0x1a, 0x0a]);
}

#[test]
fn render_sheet_rejects_unaddressable_page() {
    let mut cfg = small_sheet(1, 1);
    cfg.paper_width_um = 4_000_000_000;
    let mut req = request(cfg, 1, 1);
    req.dpi_centi = 100_000_000;
    let r = render_sheet(req, &vec![0; 4], Vec::new());
    assert_eq!(r.unwrap_err(), SheetError::TooLarge);
}
