use ticket_sheet::raster::{blend_pixel, blend_u8, Raster, Rgba};
use ticket_sheet::template::resolve_template;

fn rec(pairs: &[(&str, &str)]) -> Vec<(String, String)> {
    pairs.iter().map(|(k, v)| (k.to_string(), v.to_string())).collect()
}

#[test]
fn blend_at_zero_alpha_keeps_destination() {
    let dst = Rgba { r: 10, g: 20, b: 30, a: 255 };
    let src = Rgba { r: 200, g: 100, b: 50, a: 0 };
    assert_eq!(blend_pixel(src, dst), dst);
}

#[test]
fn blend_at_full_alpha_replaces_destination() {
    let dst = Rgba { r: 10, g: 20, b: 30, a: 255 };
    let src = Rgba { r: 200, g: 100, b: 50, a: 255 };
    assert_eq!(blend_pixel(src, dst), src);
}

#[test]
fn blend_half_alpha_exact_value() {
    // (200 * 128 + 0 * 127) / 255 = 100
    assert_eq!(blend_u8(200, 0, 128), 100);
    // (0 * 128 + 255 * 127) / 255 = 127
    assert_eq!(blend_u8(0, 255, 128), 127);
}

#[test]
fn composite_clips_out_of_bounds() {
    let white = Rgba { r: 255, g: 255, b: 255, a: 255 };
    let black = Rgba { r: 0, g: 0, b: 0, a: 255 };
    let mut base = Raster::filled(3, 2, white);
    let over = Raster::filled(2, 2, black);
    base.composite(&over, 2, 1);
    assert_eq!(base.get(2, 1), black);
    assert_eq!(base.get(1, 1), white);
    assert_eq!(base.get(2, 0), white);
    base.composite(&over, 5, 5);
    assert_eq!(base.get(2, 1), black);
}

#[test]
fn composite_forces_opaque_output() {
    let mut base = Raster::filled(1, 1, Rgba { r: 0, g: 0, b: 0, a: 0 });
    let over = Raster::filled(1, 1, Rgba { r: 255, g: 0, b: 0, a: 255 });
    base.composite(&over, 0, 0);
    assert_eq!(base.get(0, 0), Rgba { r: 255, g: 0, b: 0, a: 255 });
}

#[test]
fn rgba_bytes_round_trip() {
    let bytes = vec![1, 2, 3, 4, 5, 6, 7, 8];
    let r = Raster::from_rgba_bytes(2, 1, &bytes).unwrap();
    assert_eq!(r.get(1, 0), Rgba { r: 5, g: 6, b: 7, a: 8 });
    assert_eq!(r.to_rgba_bytes(), bytes);
    assert!(Raster::from_rgba_bytes(2, 2, &bytes).is_none());
}

#[test]
fn unknown_placeholder_stays_verbatim() {
    let out = resolve_template("No. {{serial}}", &rec(&[("other", "x")]));
    assert_eq!(out, "No. {{serial}}");
}

#[test]
fn known_placeholders_are_replaced() {
    let out = resolve_template("{{a}}-{{b}}-{{a}}", &rec(&[("a", "1"), ("b", "two")]));
    assert_eq!(out, "1-two-1");
}

#[test]
fn resolution_is_deterministic_for_a_record() {
    let r = rec(&[("serial", "0042"), ("name", "Ann")]);
    let a = resolve_template("{{name}} #{{serial}}", &r);
    let b = resolve_template("{{name}} #{{serial}}", &r);
    assert_eq!(a, b);
    assert_eq!(a, "Ann #0042");
}

#[test]
fn empty_template_resolves_to_empty() {
    assert_eq!(resolve_template("", &rec(&[("a", "1")])), "");
}

#[test]
fn partial_braces_are_not_placeholders() {
    assert_eq!(resolve_template("{a} {{a} {{a}}", &rec(&[("a", "Z")])), "{a} {{a} Z");
}

#[test]
fn field_order_does_not_matter() {
    let a = rec(&[("a", "{{b}}"), ("b", "1")]);
    let b = rec(&[("b", "1"), ("a", "{{b}}")]);
    assert_eq!(resolve_template("{{a}}", &a), "{{b}}");
    assert_eq!(resolve_template("{{a}}", &b), "{{b}}");
    assert_eq!(resolve_template("{{b}}{{a}}", &a), resolve_template("{{b}}{{a}}", &b));
}

#[test]
fn unclosed_placeholder_stays() {
    assert_eq!(resolve_template("{{a", &rec(&[("a", "1")])), "{{a");
}
