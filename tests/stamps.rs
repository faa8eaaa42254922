use ticket_sheet::outside::QrLevel;
use ticket_sheet::raster::Rgba;
use ticket_sheet::stamps::{
    barcode_pattern, color_or_black, parse_h_align, parse_qr_level, parse_v_align, qr_image, qr_module_size,
    scale_coord, scaled_font_px, text_origin, HAlign, StampError, VAlign,
};

const BLACK: Rgba = Rgba { r: 0, g: 0, b: 0, a: 255 };
const WHITE: Rgba = Rgba { r: 255, g: 255, b: 255, a: 255 };

#[test]
fn text_anchor_right_bottom() {
    assert_eq!(text_origin(100, 50, HAlign::Right, VAlign::Bottom, 40, 10), (60, 40));
}

#[test]
fn text_anchor_center_middle_and_left_top() {
    assert_eq!(text_origin(100, 50, HAlign::Center, VAlign::Middle, 41, 11), (80, 45));
    assert_eq!(text_origin(100, 50, HAlign::Left, VAlign::Top, 40, 10), (100, 50));
}

#[test]
fn alignment_words() {
    assert_eq!(parse_h_align("center"), HAlign::Center);
    assert_eq!(parse_h_align("right"), HAlign::Right);
    assert_eq!(parse_h_align("left"), HAlign::Left);
    assert_eq!(parse_h_align("justify"), HAlign::Left);
    assert_eq!(parse_v_align(&Some("middle".to_string())), VAlign::Middle);
    assert_eq!(parse_v_align(&Some("bottom".to_string())), VAlign::Bottom);
    assert_eq!(parse_v_align(&None), VAlign::Top);
}

#[test]
fn qr_levels_fall_back_to_m() {
    assert_eq!(parse_qr_level("L"), QrLevel::L);
    assert_eq!(parse_qr_level("Q"), QrLevel::Q);
    assert_eq!(parse_qr_level("H"), QrLevel::H);
    assert_eq!(parse_qr_level("M"), QrLevel::M);
    assert_eq!(parse_qr_level("X"), QrLevel::M);
}

#[test]
fn stamp_coordinates_scale_down() {
    assert_eq!(scale_coord(100, 60, 100), 60);
    assert_eq!(scale_coord(33, 60, 100), 19);
}

#[test]
fn font_size_uses_mean_scale() {
    // 20 * (0.5 + 1.0) / 2 = 15
    assert_eq!(scaled_font_px(20, 50, 100, 100, 100), 15);
    // 10 * (0.6 + 0.6) / 2 = 6
    assert_eq!(scaled_font_px(10, 60, 30, 100, 50), 6);
}

#[test]
fn colors_parse_or_fall_back_to_black() {
    assert_eq!(color_or_black("#ff0000"), Rgba { r: 255, g: 0, b: 0, a: 255 });
    assert_eq!(color_or_black("rgba(0, 0, 255, 0.5)"), Rgba { r: 0, g: 0, b: 255, a: 128 });
    assert_eq!(color_or_black("not a colour"), BLACK);
}

#[test]
fn barcode_placeholder_bars() {
    let img = barcode_pattern(40, 40, 2);
    assert_eq!(img.get(0, 0), BLACK);
    assert_eq!(img.get(1, 1), BLACK);
    assert_eq!(img.get(2, 0), WHITE);
    assert_eq!(img.get(4, 0), BLACK);
    assert_eq!(img.get(36, 0), BLACK);
    assert_eq!(img.get(38, 0), WHITE);
}

#[test]
fn narrow_barcode_bars_are_one_pixel() {
    let img = barcode_pattern(10, 10, 1);
    assert_eq!(img.get(0, 0), BLACK);
    assert_eq!(img.get(1, 0), WHITE);
    assert_eq!(img.get(8, 0), BLACK);
}

#[test]
fn qr_module_size_rounds_up() {
    assert_eq!(qr_module_size(29, 29), 1);
    assert_eq!(qr_module_size(30, 29), 2);
    assert_eq!(qr_module_size(30, 29) * 29, 58);
}

#[test]
fn qr_exact_size_needs_no_resampling() {
    // 26 upper-case letters need a 29-module symbol at level H.
    let text = "ABCDEFGHIJKLMNOPQRSTUVWXYZ";
    let img = qr_image(text, QrLevel::H, 29).unwrap();
    assert_eq!((img.width, img.height), (29, 29));
    // The top-left finder pattern starts with a dark module.
    assert_eq!(img.get(0, 0), BLACK);
    assert_eq!(img.get(7, 0), WHITE);
}

#[test]
fn qr_inexact_size_is_resampled() {
    let text = "ABCDEFGHIJKLMNOPQRSTUVWXYZ";
    let img = qr_image(text, QrLevel::H, 30).unwrap();
    assert_eq!((img.width, img.height), (30, 30));
    assert_eq!(img.get(0, 0), BLACK);
}

#[test]
fn qr_refuses_oversized_text() {
    let text = "x".repeat(4000);
    assert_eq!(qr_image(&text, QrLevel::H, 100).unwrap_err(), StampError::QrEncoding);
}

#[test]
fn qr_is_deterministic() {
    let a = qr_image("ticket 17", QrLevel::M, 50).unwrap();
    let b = qr_image("ticket 17", QrLevel::M, 50).unwrap();
    assert_eq!(a.to_rgba_bytes(), b.to_rgba_bytes());
}

#[test]
fn qr_refuses_unaddressable_size() {
    assert_eq!(qr_image("a", QrLevel::M, 4_000_000_000).unwrap_err(), StampError::TooLarge);
}
