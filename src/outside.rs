//! The calls this library makes into font, colour, QR and image crates, each
//! with the contract that the crate's source and documentation give it.
use vstd::prelude::*;
use crate::raster::Rgba;

verus! {

/// QR error-correction levels.
#[derive(Clone, Copy, Debug, PartialEq, Eq, Structural)]
pub enum QrLevel {
    L,
    M,
    Q,
    H,
}

/// A QR symbol as a square of modules, row by row; `true` is a dark module.
#[derive(Debug)]
pub struct QrGrid {
    pub width: usize,
    pub dark: Vec<bool>,
}

/// Whether the bytes hold a font that ab_glyph can read.
pub uninterp spec fn font_parses(font: Seq<u8>) -> bool;

/// The width and height that imageproc measures for `text` at `size` pixels.
pub uninterp spec fn text_extent_of(font: Seq<u8>, size: nat, text: Seq<char>) -> (nat, nat);

/// The coverage mask, one 8-bit level per pixel of a `w` x `h` area, that
/// imageproc draws for the glyph of `ch` at `size` pixels with the top of its
/// line at `(x, y)`.
pub uninterp spec fn glyph_coverage_of(font: Seq<u8>, size: nat, ch: char, x: int, y: int, w: nat, h: nat) -> Seq<u8>;

/// The colour that csscolorparser reads from a CSS colour string, if any.
pub uninterp spec fn css_color_of(s: Seq<char>) -> Option<Rgba>;

/// The modules of the QR symbol that the qrcode crate builds for `text`.
pub uninterp spec fn qr_modules_of(text: Seq<char>, level: QrLevel) -> Option<(nat, Seq<bool>)>;

/// An RGBA buffer of `sw` x `sh` resampled by the image crate to `w` x `h`,
/// with the Lanczos filter (`smooth`) or nearest-neighbour sampling.
pub uninterp spec fn resized_of(bytes: Seq<u8>, sw: nat, sh: nat, w: nat, h: nat, smooth: bool) -> Seq<u8>;

/// The PNG file that the image crate encodes for an RGBA buffer of `w` x `h`.
pub uninterp spec fn png_of(bytes: Seq<u8>, w: nat, h: nat) -> Option<Seq<u8>>;

/// Relies on image's `ImageBuffer::write_to` with `ImageFormat::Png`: the
/// PNG encoding of the buffer, or `None` where the encoder reports an error.
#[verifier::external_body]
pub(crate) fn encode_png(bytes: Vec<u8>, w: u32, h: u32) -> (r: Option<Vec<u8>>)
    requires
        bytes@.len() == w * h * 4,
    ensures
        r matches Some(v) ==> png_of(bytes@, w as nat, h as nat) == Some(v@),
        r is None ==> png_of(bytes@, w as nat, h as nat) is None,
{
    let img = image::RgbaImage::from_raw(w, h, bytes).unwrap();
    let mut out: Vec<u8> = Vec::new();
    match img.write_to(&mut std::io::Cursor::new(&mut out), image::ImageFormat::Png) {
        Ok(()) => Some(out),
        Err(_) => None,
    }
}

/// Relies on ab_glyph's `FontRef::try_from_slice`: whether the bytes parse as a font.
#[verifier::external_body]
pub(crate) fn check_font(font: &[u8]) -> (r: bool)
    ensures
        r == font_parses(font@),
{
    ab_glyph::FontRef::try_from_slice(font).is_ok()
}

/// Relies on imageproc's `drawing::text_size`: the extent of a single line of
/// text laid out glyph by glyph (the font is read by `FontRef::try_from_slice`).
#[verifier::external_body]
pub(crate) fn text_extent(font: &[u8], size_px: u16, text: &str) -> (r: (u32, u32))
    requires
        font_parses(font@),
    ensures
        (r.0 as nat, r.1 as nat) == text_extent_of(font@, size_px as nat, text@),
{
    match ab_glyph::FontRef::try_from_slice(font) {
        Ok(f) => imageproc::drawing::text_size(ab_glyph::PxScale { x: size_px.into(), y: size_px.into() }, &f, text),
        Err(_) => (0, 0),
    }
}

/// Relies on imageproc's `drawing::draw_text_mut` onto an 8-bit grey canvas:
/// the glyph's coverage of each pixel, rasterized by ab_glyph, as a level
/// from 0 to 255, row by row.
#[verifier::external_body]
pub(crate) fn glyph_coverage(font: &[u8], size_px: u16, ch: char, x: i32, y: i32, w: u32, h: u32) -> (r: Vec<u8>)
    requires
        font_parses(font@),
        w * h <= usize::MAX,
        w <= 0x7fff_ffff,
        h <= 0x7fff_ffff,
        -0x4000_0000 <= x <= 0x4000_0000,
        -0x4000_0000 <= y <= 0x4000_0000,
    ensures
        r@ == glyph_coverage_of(font@, size_px as nat, ch, x as int, y as int, w as nat, h as nat),
        r@.len() == w * h,
{
    let mut mask = image::GrayImage::new(w, h);
    if let Ok(f) = ab_glyph::FontRef::try_from_slice(font) {
        let scale = ab_glyph::PxScale { x: size_px.into(), y: size_px.into() };
        imageproc::drawing::draw_text_mut(&mut mask, image::Luma([255u8]), x, y, scale, &f, &ch.to_string());
    }
    mask.into_raw()
}

/// Relies on csscolorparser's `parse` and `Color::to_rgba8`: the colour a CSS
/// colour string names, as 8-bit channels.
#[verifier::external_body]
pub(crate) fn css_color(s: &str) -> (r: Option<Rgba>)
    ensures
        r == css_color_of(s@),
{
    match csscolorparser::parse(s) {
        Ok(c) => {
            let [r, g, b, a] = c.to_rgba8();
            Some(Rgba { r, g, b, a })
        },
        Err(_) => None,
    }
}

/// Relies on qrcode's `QrCode::with_error_correction_level`, `width` and
/// `to_colors`: a square symbol of `width * width` modules (at least 21 on a
/// side) or an error where the text does not fit.
#[verifier::external_body]
pub(crate) fn qr_encode(text: &str, level: QrLevel) -> (r: Option<QrGrid>)
    ensures
        r matches Some(g) ==> g.width >= 21 && g.dark@.len() == g.width * g.width
            && qr_modules_of(text@, level) == Some((g.width as nat, g.dark@)),
        r is None ==> qr_modules_of(text@, level) is None,
{
    let ec = match level {
        QrLevel::L => qrcode::EcLevel::L,
        QrLevel::M => qrcode::EcLevel::M,
        QrLevel::Q => qrcode::EcLevel::Q,
        QrLevel::H => qrcode::EcLevel::H,
    };
    let code = qrcode::QrCode::with_error_correction_level(text.as_bytes(), ec).ok()?;
    let dark = code.to_colors().into_iter().map(|c| c == qrcode::Color::Dark).collect();
    Some(QrGrid { width: code.width(), dark })
}

/// Relies on image's `imageops::resize`: an RGBA buffer of `w` x `h`; where
/// the size is unchanged it is a copy of the source.
#[verifier::external_body]
pub(crate) fn resize_rgba(bytes: Vec<u8>, sw: u32, sh: u32, w: u32, h: u32, smooth: bool) -> (r: Vec<u8>)
    requires
        bytes@.len() == sw * sh * 4,
        w * h * 4 <= usize::MAX,
    ensures
        r@ == resized_of(bytes@, sw as nat, sh as nat, w as nat, h as nat, smooth),
        r@.len() == w * h * 4,
        sw == w && sh == h ==> r@ == bytes@,
{
    let img = image::RgbaImage::from_raw(sw, sh, bytes).unwrap();
    let filter = if smooth { image::imageops::FilterType::Lanczos3 } else { image::imageops::FilterType::Nearest };
    image::imageops::resize(&img, w, h, filter).into_raw()
}

} // verus!
