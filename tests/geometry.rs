use ticket_sheet::geometry::{compute_layout, fit_template, mm_to_px, SheetConfig};
use ticket_sheet::export::{plan_export, rgba_to_rgb};

fn a4_grid(rows: u32, cols: u32) -> SheetConfig {
    SheetConfig {
        paper_width_um: 210_000,
        paper_height_um: 297_000,
        rows,
        cols,
        margin_top_um: 10_000,
        margin_right_um: 10_000,
        margin_bottom_um: 10_000,
        margin_left_um: 10_000,
        spacing_x_um: 5_000,
        spacing_y_um: 5_000,
    }
}

#[test]
fn mm_to_px_rounds_to_nearest() {
    assert_eq!(mm_to_px(25_400, 30_000), 300);
    assert_eq!(mm_to_px(210_000, 30_000), 2480);
    assert_eq!(mm_to_px(297_000, 30_000), 3508);
    assert_eq!(mm_to_px(0, 30_000), 0);
}

#[test]
fn mm_to_px_rounds_halves_up() {
    // 12.7 mm at 1 dpi is exactly half a pixel.
    assert_eq!(mm_to_px(12_700, 100), 1);
    assert_eq!(mm_to_px(12_699, 100), 0);
}

#[test]
fn mm_to_px_takes_fractional_resolutions() {
    // 25.4 dpi is one pixel per millimetre.
    assert_eq!(mm_to_px(60_000, 2_540), 60);
    assert_eq!(mm_to_px(100_000, 7_250), 285);
}

#[test]
fn mm_to_px_is_deterministic() {
    let a = mm_to_px(123_456, 20_300);
    let b = mm_to_px(123_456, 20_300);
    assert_eq!(a, b);
    assert_eq!(a, 987);
}

#[test]
fn layout_of_a4_two_by_three() {
    let lay = compute_layout(a4_grid(3, 2), 30_000).unwrap();
    assert_eq!(lay.page_width_px, 2480);
    assert_eq!(lay.page_height_px, 3508);
    // (210 - 20 - 5) / 2 = 92.5 mm -> 1092.52 px
    assert_eq!(lay.ticket_width_px, 1093);
    // (297 - 20 - 10) / 3 = 89 mm -> 1051.18 px
    assert_eq!(lay.ticket_height_px, 1051);
    assert_eq!(lay.margin_left_px, 118);
    assert_eq!(lay.margin_top_px, 118);
    assert_eq!(lay.spacing_x_px, 59);
    assert_eq!(lay.spacing_y_px, 59);
}

#[test]
fn layout_rejects_non_positive_tickets() {
    let mut c = a4_grid(2, 2);
    c.margin_left_um = 100_000;
    c.margin_right_um = 110_000;
    assert!(compute_layout(c, 30_000).is_none());
    let mut c = a4_grid(2, 2);
    c.spacing_y_um = 300_000;
    assert!(compute_layout(c, 30_000).is_none());
}

#[test]
fn layout_rejects_empty_grid() {
    assert!(compute_layout(a4_grid(0, 2), 30_000).is_none());
    assert!(compute_layout(a4_grid(2, 0), 30_000).is_none());
}

#[test]
fn template_scaling_is_uniform() {
    let p = fit_template(100, 50, 60, 60);
    assert_eq!(p.width, 60);
    assert_eq!(p.height, 30);
    assert_eq!(p.offset_x, 0);
    assert_eq!(p.offset_y, 15);
}

#[test]
fn template_scaling_height_bound() {
    let p = fit_template(50, 100, 60, 60);
    assert_eq!(p.width, 30);
    assert_eq!(p.height, 60);
    assert_eq!(p.offset_x, 15);
    assert_eq!(p.offset_y, 0);
}

#[test]
fn template_without_pixels_fills_nothing() {
    let p = fit_template(0, 5, 60, 60);
    assert_eq!((p.width, p.height, p.offset_x, p.offset_y), (0, 0, 30, 30));
}

#[test]
fn multi_page_export_places_fifth_ticket_on_second_page() {
    let plan = plan_export(a4_grid(2, 2), 5).unwrap();
    assert_eq!(plan.page_count, 2);
    assert_eq!(plan.placements.len(), 5);
    let fifth = plan.placements[4];
    assert_eq!(fifth.page, 1);
    assert_eq!(fifth.row, 0);
    assert_eq!(fifth.col, 0);
    let first = plan.placements[0];
    assert_eq!(first.page, 0);
    assert_eq!((first.x_mpt, first.y_mpt), (fifth.x_mpt, fifth.y_mpt));
    let fourth = plan.placements[3];
    assert_eq!((fourth.page, fourth.row, fourth.col), (0, 1, 1));
}

#[test]
fn export_inverts_the_vertical_axis() {
    let plan = plan_export(a4_grid(2, 2), 3).unwrap();
    // Tickets are 92.5 x 136 mm. Row 0 sits at 297 - 10 - 136 = 151 mm from
    // the bottom, row 1 at 10 mm; column 1 starts at 10 + 92.5 + 5 mm.
    assert_eq!(plan.placements[0].y_mpt, 428_031);
    assert_eq!(plan.placements[2].y_mpt, 28_346);
    assert_eq!(plan.placements[0].x_mpt, 28_346);
    assert_eq!(plan.placements[1].x_mpt, 304_724);
    assert_eq!(plan.ticket_width_mpt, 262_205);
    assert_eq!(plan.ticket_height_mpt, 385_512);
    assert_eq!(plan.page_height_mpt, 841_890);
}

#[test]
fn export_rejects_invalid_configuration() {
    assert!(plan_export(a4_grid(0, 2), 3).is_none());
}

#[test]
fn export_of_no_tickets_has_no_pages() {
    let plan = plan_export(a4_grid(2, 2), 0).unwrap();
    assert_eq!(plan.page_count, 0);
    assert!(plan.placements.is_empty());
}

#[test]
fn rgb_drops_alpha() {
    let rgb = rgba_to_rgb(&vec![1, 2, 3, 4, 5, 6, 7, 8, 9]);
    assert_eq!(rgb, vec![1, 2, 3, 5, 6, 7]);
}
