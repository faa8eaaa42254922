//! One ticket: the template scaled to the ticket's size with every stamp
//! drawn over it in the order declared.
use vstd::prelude::*;
use crate::raster::{Rgba, Raster, rgba_bytes, pixels_of_bytes, lemma_rgba_bytes_len};
use crate::outside::{font_parses, check_font, qr_modules_of, resize_rgba, resized_of};
use crate::stamps::{
    Stamp, StampError, fits, raster_fits, text_stamp_pixels, barcode_stamp_pixels, qr_stamp_pixels,
    draw_text_stamp, draw_barcode_stamp, draw_qr_stamp, qr_side_of, qr_level_of, qr_fits,
};
use crate::template::{resolve, record_view};

verus! {

/// A template image as RGBA bytes, row by row.
#[derive(Debug)]
pub struct TemplateData {
    pub width: u32,
    pub height: u32,
    pub data: Vec<u8>,
}

/// Why a ticket could not be rendered.
#[derive(Clone, Copy, Debug, PartialEq, Eq, Structural)]
pub enum TicketError {
    /// The template's bytes are not `width * height * 4`.
    InvalidTemplate,
    /// The font bytes do not parse.
    InvalidFont,
    /// The ticket's raster would not fit in memory.
    TooLarge,
    /// The stamp at `index` failed.
    Stamp { index: usize, cause: StampError },
}

/// What one stamp does to a `tw` x `th` ticket whose template was `w0` x `h0`;
/// `None` where a QR stamp's text cannot be encoded.
pub open spec fn stamp_pixels(
    pixels: Seq<Rgba>,
    font: Seq<u8>,
    stamp: Stamp,
    record: Map<Seq<char>, Seq<char>>,
    tw: int,
    th: int,
    w0: int,
    h0: int,
) -> Option<Seq<Rgba>> {
    match stamp {
        Stamp::Text(t) => Some(text_stamp_pixels(pixels, font, t, record, tw, th, w0, h0)),
        Stamp::Barcode(b) => Some(barcode_stamp_pixels(pixels, b, record, tw, th, w0, h0)),
        Stamp::QrCode(q) => qr_stamp_pixels(pixels, q, record, tw, th, w0, h0),
    }
}

/// How a stamp fails on a `tw` x `th` ticket whose template was `w0` x `h0`,
/// whatever was drawn before it: only a QR stamp with text can fail, where the
/// encoder refuses the text or its rasters do not fit in memory.
pub open spec fn stamp_failure(
    stamp: Stamp,
    record: Map<Seq<char>, Seq<char>>,
    tw: int,
    th: int,
    w0: int,
    h0: int,
) -> Option<StampError> {
    match stamp {
        Stamp::QrCode(q) => {
            let text = resolve(q.template@, record);
            if text.len() == 0 {
                None
            } else {
                match qr_modules_of(text, qr_level_of(q.error_correction@)) {
                    None => Some(StampError::QrEncoding),
                    Some(m) => if qr_fits(qr_side_of(q.width as int, tw, th, w0, h0), m.0 as int) {
                        None
                    } else {
                        Some(StampError::TooLarge)
                    },
                }
            }
        },
        _ => None,
    }
}

/// The first stamp that fails, with how, if any does.
pub open spec fn first_failure(
    stamps: Seq<Stamp>,
    record: Map<Seq<char>, Seq<char>>,
    tw: int,
    th: int,
    w0: int,
    h0: int,
) -> Option<(int, StampError)>
    decreases stamps.len(),
{
    if stamps.len() == 0 {
        None
    } else {
        match first_failure(stamps.drop_last(), record, tw, th, w0, h0) {
            Some(f) => Some(f),
            None => match stamp_failure(stamps.last(), record, tw, th, w0, h0) {
                Some(e) => Some(((stamps.len() - 1) as int, e)),
                None => None,
            },
        }
    }
}

/// How rendering the ticket for `record` at `tw` x `th` fails, if it does.
pub open spec fn ticket_failure(m: TicketModel, record: Map<Seq<char>, Seq<char>>, tw: int, th: int) -> Option<TicketError> {
    if !fits(tw, th) {
        Some(TicketError::TooLarge)
    } else if m.w0 == 0 || m.h0 == 0 {
        None
    } else {
        match first_failure(m.stamps, record, tw, th, m.w0, m.h0) {
            Some(f) => Some(TicketError::Stamp { index: f.0 as usize, cause: f.1 }),
            None => None,
        }
    }
}

/// `first_failure` finds no stamp exactly where no stamp fails, and otherwise
/// the first one that does.
proof fn lemma_first_failure(
    stamps: Seq<Stamp>,
    record: Map<Seq<char>, Seq<char>>,
    tw: int,
    th: int,
    w0: int,
    h0: int,
)
    ensures
        first_failure(stamps, record, tw, th, w0, h0) is None <==> forall|j: int| 0 <= j < stamps.len() ==> #[trigger] stamp_failure(stamps[j], record, tw, th, w0, h0) is None,
        forall|i: int| 0 <= i < stamps.len() && stamp_failure(stamps[i], record, tw, th, w0, h0) is Some
            && (forall|j: int| 0 <= j < i ==> #[trigger] stamp_failure(stamps[j], record, tw, th, w0, h0) is None)
            ==> first_failure(stamps, record, tw, th, w0, h0) == Some((i, stamp_failure(stamps[i], record, tw, th, w0, h0).unwrap())),
    decreases stamps.len(),
{
    if stamps.len() > 0 {
        let init = stamps.drop_last();
        lemma_first_failure(init, record, tw, th, w0, h0);
        assert forall|j: int| 0 <= j < init.len() implies init[j] == stamps[j] by {}
        if first_failure(stamps, record, tw, th, w0, h0) is None {
            assert forall|j: int| 0 <= j < stamps.len() implies #[trigger] stamp_failure(stamps[j], record, tw, th, w0, h0) is None by {
                if j < init.len() {
                    assert(stamp_failure(init[j], record, tw, th, w0, h0) is None);
                }
            }
        }
        assert forall|i: int| 0 <= i < stamps.len() && stamp_failure(stamps[i], record, tw, th, w0, h0) is Some
            && (forall|j: int| 0 <= j < i ==> #[trigger] stamp_failure(stamps[j], record, tw, th, w0, h0) is None)
            implies first_failure(stamps, record, tw, th, w0, h0) == Some((i, stamp_failure(stamps[i], record, tw, th, w0, h0).unwrap())) by {
            if i < init.len() {
                assert(stamp_failure(init[i], record, tw, th, w0, h0) is Some);
                assert forall|j: int| 0 <= j < i implies #[trigger] stamp_failure(init[j], record, tw, th, w0, h0) is None by {
                    assert(stamp_failure(stamps[j], record, tw, th, w0, h0) is None);
                }
            } else {
                assert forall|j: int| 0 <= j < init.len() implies #[trigger] stamp_failure(init[j], record, tw, th, w0, h0) is None by {
                    assert(stamp_failure(stamps[j], record, tw, th, w0, h0) is None);
                }
            }
        }
    }
}

/// The stamps drawn one after another, later ones over earlier ones.
pub open spec fn stamps_pixels(
    pixels: Seq<Rgba>,
    font: Seq<u8>,
    stamps: Seq<Stamp>,
    record: Map<Seq<char>, Seq<char>>,
    tw: int,
    th: int,
    w0: int,
    h0: int,
) -> Option<Seq<Rgba>>
    decreases stamps.len(),
{
    if stamps.len() == 0 {
        Some(pixels)
    } else {
        match stamps_pixels(pixels, font, stamps.drop_last(), record, tw, th, w0, h0) {
            None => None,
            Some(p) => stamp_pixels(p, font, stamps.last(), record, tw, th, w0, h0),
        }
    }
}

/// Renders tickets from one template, one stamp list and one font.
#[derive(Debug)]
pub struct TicketRenderer {
    pub template: Raster,
    pub stamps: Vec<Stamp>,
    pub font_data: Vec<u8>,
}

/// What a renderer renders from: the template's pixels and size, the font
/// bytes and the stamps.
pub struct TicketModel {
    pub template: Seq<Rgba>,
    pub w0: int,
    pub h0: int,
    pub font: Seq<u8>,
    pub stamps: Seq<Stamp>,
}

/// The template resampled to `tw` x `th` with the Lanczos filter.
pub open spec fn scaled_template(m: TicketModel, tw: int, th: int) -> Seq<Rgba> {
    pixels_of_bytes(resized_of(rgba_bytes(m.template), m.w0 as nat, m.h0 as nat, tw as nat, th as nat, true))
}

/// The ticket for `record` at `tw` x `th`: the scaled template under every stamp.
/// A template without pixels gives no scale for stamp positions: such a
/// ticket is the resampled (empty) template alone.
pub open spec fn ticket_pixels(m: TicketModel, record: Map<Seq<char>, Seq<char>>, tw: int, th: int) -> Option<Seq<Rgba>> {
    if m.w0 == 0 || m.h0 == 0 {
        Some(scaled_template(m, tw, th))
    } else {
        stamps_pixels(scaled_template(m, tw, th), m.font, m.stamps, record, tw, th, m.w0, m.h0)
    }
}

impl TicketRenderer {
    pub open spec fn model(&self) -> TicketModel {
        TicketModel {
            template: self.template.pixels@,
            w0: self.template.width as int,
            h0: self.template.height as int,
            font: self.font_data@,
            stamps: self.stamps@,
        }
    }

    /// The template is a raster of 32-bit dimensions whose bytes can be
    /// addressed, and the font parses.
    pub open spec fn wf(&self) -> bool {
        &&& self.template.wf()
        &&& self.template.width <= 0xffff_ffff
        &&& self.template.height <= 0xffff_ffff
        &&& self.template.pixels@.len() * 4 <= usize::MAX
        &&& font_parses(self.font_data@)
    }

    /// Takes the template bytes, the stamps and the font. Fails on template
    /// bytes that are not `width * height * 4`, then on font bytes that do not
    /// parse.
    pub fn new(template_data: TemplateData, stamps: Vec<Stamp>, font_data: Vec<u8>) -> (r: Result<TicketRenderer, TicketError>)
        ensures
            ({
                let template_ok = template_data.data@.len() == template_data.width * template_data.height * 4;
                &&& (r == Err::<TicketRenderer, TicketError>(TicketError::InvalidTemplate) <==> !template_ok)
                &&& (r == Err::<TicketRenderer, TicketError>(TicketError::InvalidFont) <==> template_ok && !font_parses(font_data@))
                &&& (r is Ok <==> template_ok && font_parses(font_data@))
            }),
            r matches Ok(t) ==> t.wf() && t.template.width == template_data.width && t.template.height
                == template_data.height && t.template.pixels@ == pixels_of_bytes(template_data.data@)
                && t.stamps@ == stamps@ && t.font_data@ == font_data@,
    {
        let len = template_data.data.len();
        let template = match Raster::from_rgba_bytes(template_data.width as usize, template_data.height as usize, &template_data.data) {
            Some(t) => t,
            None => { return Err(TicketError::InvalidTemplate); },
        };
        proof {
            assert(template.pixels@.len() * 4 == len) by (nonlinear_arith)
                requires template.pixels@.len() == template.width * template.height, len == template.width * template.height * 4;
        }
        if !check_font(font_data.as_slice()) {
            return Err(TicketError::InvalidFont);
        }
        Ok(TicketRenderer { template, stamps, font_data })
    }

    /// Renders the ticket for `record` at `target_width` x `target_height`:
    /// the template resampled to that size, then each stamp in order. Fails
    /// where a stamp fails, naming it, or where the ticket would not fit in memory.
    pub fn render(&self, record: &Vec<(String, String)>, target_width: u32, target_height: u32) -> (r: Result<Raster, TicketError>)
        requires
            self.wf(),
        ensures
            r matches Ok(img) ==> img.wf() && img.width == target_width && img.height == target_height
                && ticket_pixels(self.model(), record_view(record@), target_width as int, target_height as int) == Some(img.pixels@),
            r is Ok <==> ticket_failure(self.model(), record_view(record@), target_width as int, target_height as int) is None,
            r matches Err(e) ==> ticket_failure(self.model(), record_view(record@), target_width as int, target_height as int) == Some(e),
            r matches Err(TicketError::Stamp { index, cause: StampError::QrEncoding }) ==> ticket_pixels(
                self.model(),
                record_view(record@),
                target_width as int,
                target_height as int,
            ) is None,
    {
        let r = self.render_checked(record, target_width, target_height);
        proof {
            let rec = record_view(record@);
            let (tw, th) = (target_width as int, target_height as int);
            let (w0, h0) = (self.template.width as int, self.template.height as int);
            lemma_first_failure(self.stamps@, rec, tw, th, w0, h0);
            match r {
                Ok(_) => {
                    if w0 > 0 && h0 > 0 {
                        assert(first_failure(self.stamps@, rec, tw, th, w0, h0) is None);
                    }
                    assert(ticket_failure(self.model(), rec, tw, th) is None);
                },
                Err(TicketError::Stamp { index, cause }) => {
                    assert(first_failure(self.stamps@, rec, tw, th, w0, h0) == Some((index as int, cause)));
                    assert(ticket_failure(self.model(), rec, tw, th) == Some(TicketError::Stamp { index, cause }));
                },
                Err(e) => {
                    assert(e == TicketError::TooLarge);
                },
            }
        }
        r
    }

    fn render_checked(&self, record: &Vec<(String, String)>, target_width: u32, target_height: u32) -> (r: Result<Raster, TicketError>)
        requires
            self.wf(),
        ensures
            r matches Ok(img) ==> img.wf() && img.width == target_width && img.height == target_height
                && ticket_pixels(self.model(), record_view(record@), target_width as int, target_height as int) == Some(img.pixels@),
            r matches Err(TicketError::Stamp { index, cause: StampError::QrEncoding }) ==> ticket_pixels(
                self.model(),
                record_view(record@),
                target_width as int,
                target_height as int,
            ) is None,
            r == Err::<Raster, TicketError>(TicketError::TooLarge) <==> !fits(target_width as int, target_height as int),
            r is Err ==> r == Err::<Raster, TicketError>(TicketError::TooLarge) || r matches Err(TicketError::Stamp { index, cause }),
            r matches Err(TicketError::Stamp { index, cause }) ==> index < self.stamps@.len()
                && self.template.width > 0 && self.template.height > 0
                && stamp_failure(self.stamps@[index as int], record_view(record@), target_width as int, target_height as int, self.template.width as int, self.template.height as int) == Some(cause)
                && forall|j: int| 0 <= j < index ==> #[trigger] stamp_failure(self.stamps@[j], record_view(record@), target_width as int, target_height as int, self.template.width as int, self.template.height as int) is None,
            r is Ok && self.template.width > 0 && self.template.height > 0 ==> forall|j: int| 0 <= j < self.stamps@.len() ==> #[trigger] stamp_failure(self.stamps@[j], record_view(record@), target_width as int, target_height as int, self.template.width as int, self.template.height as int) is None,
    {
        if !raster_fits(target_width as u64, target_height as u64) {
            return Err(TicketError::TooLarge);
        }
        let w0 = self.template.width as u32;
        let h0 = self.template.height as u32;
        let bytes = self.template.to_rgba_bytes();
        proof {
            lemma_rgba_bytes_len(self.template.pixels@);
            assert(self.template.pixels@.len() * 4 <= usize::MAX);
            assert(target_width * target_height * 4 <= usize::MAX);
        }
        let resized = resize_rgba(bytes, w0, h0, target_width, target_height, true);
        let mut img = match Raster::from_rgba_bytes(target_width as usize, target_height as usize, &resized) {
            Some(i) => i,
            None => { return Err(TicketError::TooLarge); },
        };
        if w0 == 0 || h0 == 0 {
            return Ok(img);
        }
        let ghost rec = record_view(record@);
        let ghost tw = target_width as int;
        let ghost th = target_height as int;
        let mut i: usize = 0;
        proof {
            assert(self.stamps@.take(0) =~= Seq::<Stamp>::empty());
        }
        while i < self.stamps.len()
            invariant
                self.wf(),
                w0 == self.template.width,
                h0 == self.template.height,
                w0 > 0,
                h0 > 0,
                img.wf(),
                img.width == target_width,
                img.height == target_height,
                fits(img.width as int, img.height as int),
                rec == record_view(record@),
                tw == target_width,
                th == target_height,
                i <= self.stamps@.len(),
                stamps_pixels(scaled_template(self.model(), tw, th), self.font_data@, self.stamps@.take(i as int), rec, tw, th, w0 as int, h0 as int)
                    == Some(img.pixels@),
                forall|j: int| 0 <= j < i ==> #[trigger] stamp_failure(self.stamps@[j], rec, tw, th, w0 as int, h0 as int) is None,
            decreases self.stamps@.len() - i,
        {
            proof {
                assert(self.stamps@.take(i + 1).drop_last() =~= self.stamps@.take(i as int));
                assert(self.stamps@.take(i + 1).last() == self.stamps@[i as int]);
            }
            match &self.stamps[i] {
                Stamp::Text(t) => {
                    draw_text_stamp(&mut img, &self.font_data, t, record, w0, h0);
                },
                Stamp::Barcode(b) => {
                    draw_barcode_stamp(&mut img, b, record, w0, h0);
                },
                Stamp::QrCode(q) => {
                    match draw_qr_stamp(&mut img, q, record, w0, h0) {
                        Ok(()) => {},
                        Err(cause) => {
                            proof {
                                if cause == StampError::QrEncoding {
                                    lemma_stamps_none_extends(scaled_template(self.model(), tw, th), self.font_data@, self.stamps@, i as int, rec, tw, th, w0 as int, h0 as int);
                                }
                            }
                            return Err(TicketError::Stamp { index: i, cause });
                        },
                    }
                },
            }
            i += 1;
        }
        proof {
            assert(self.stamps@.take(i as int) =~= self.stamps@);
        }
        Ok(img)
    }
}

/// Once a stamp fails, drawing further stamps does not recover.
proof fn lemma_stamps_none_extends(
    pixels: Seq<Rgba>,
    font: Seq<u8>,
    stamps: Seq<Stamp>,
    i: int,
    record: Map<Seq<char>, Seq<char>>,
    tw: int,
    th: int,
    w0: int,
    h0: int,
)
    requires
        0 <= i < stamps.len(),
        stamps_pixels(pixels, font, stamps.take(i + 1), record, tw, th, w0, h0) is None,
    ensures
        stamps_pixels(pixels, font, stamps, record, tw, th, w0, h0) is None,
    decreases stamps.len() - i,
{
    if i + 1 < stamps.len() {
        assert(stamps.take(i + 2).drop_last() =~= stamps.take(i + 1));
        lemma_stamps_none_extends(pixels, font, stamps, i + 1, record, tw, th, w0, h0);
    } else {
        assert(stamps.take(i + 1) =~= stamps);
    }
}

} // verus!
