use vstd::prelude::*;

verus! {

/// A decoded image: `width * height` pixels, row by row from the top left, four bytes
/// (red, green, blue, alpha) each.
#[derive(Debug, Clone)]
pub struct Raster {
    pub width: u32,
    pub height: u32,
    pub pixels: Vec<u8>,
}

/// What the PNG decoder makes of these bytes: width, height and the RGBA bytes of
/// the decoded image, or nothing where they hold no PNG image it can read.
pub uninterp spec fn decoded_rgba(bytes: Seq<u8>) -> Option<(u32, u32, Seq<u8>)>;

/// The decoded image where it is one whose pixel buffer has exactly four bytes for
/// each pixel; nothing otherwise.
pub open spec fn raster_of(bytes: Seq<u8>) -> Option<(u32, u32, Seq<u8>)> {
    match decoded_rgba(bytes) {
        Some((w, h, p)) => if p.len() == 4 * w * h { Some((w, h, p)) } else { None },
        None => None,
    }
}

impl Raster {
    /// Four bytes for each pixel.
    pub open spec fn wf(&self) -> bool {
        self.pixels@.len() == 4 * self.width * self.height
    }

    pub open spec fn view_parts(&self) -> (u32, u32, Seq<u8>) {
        (self.width, self.height, self.pixels@)
    }

    /// Index of the first byte of pixel `(x, y)`.
    pub open spec fn offset(&self, x: int, y: int) -> int {
        4 * (y * self.width + x)
    }

    /// The red, green, blue and alpha bytes of pixel `(x, y)`.
    pub fn rgba_at(&self, x: u32, y: u32) -> (r: [u8; 4])
        requires
            self.wf(),
            x < self.width,
            y < self.height,
        ensures
            r@ == self.pixels@.subrange(self.offset(x as int, y as int), self.offset(x as int, y as int) + 4),
    {
        let n = self.pixels.len();
        let w = self.width as u128;
        let h = self.height as u128;
        assert(y * w + x < w * h) by (nonlinear_arith)
            requires x < w, y < h;
        assert(4 * (y * w + x) + 4 <= 4 * w * h) by (nonlinear_arith)
            requires y * w + x < w * h;
        assert(y * w <= 0xffff_ffff * 0xffff_ffff) by (nonlinear_arith)
            requires y < 0x1_0000_0000, w < 0x1_0000_0000;
        let i: usize = (4 * ((y as u128) * w + (x as u128))) as usize;
        let r = [self.pixels[i], self.pixels[i + 1], self.pixels[i + 2], self.pixels[i + 3]];
        assert(r@ =~= self.pixels@.subrange(i as int, i + 4));
        r
    }
}

#[verifier::external_type_specification]
#[verifier::external_body]
pub struct ExImageError(image::ImageError);

/// Relies on image::guess_format, which reads the format from the leading magic bytes,
/// on image::load_from_memory_with_format, which decodes with the built-in decoder of
/// that format (no registered hooks are consulted), and on DynamicImage::to_rgba8,
/// which turns the result into 8-bit RGBA. PNG is the one format built in here, and
/// it is lossless, so what comes back is a function of the bytes alone.
#[verifier::external_body]
fn load_rgba(bytes: &[u8]) -> (r: Result<Raster, image::ImageError>)
    ensures
        match r {
            Ok(img) => decoded_rgba(bytes@) == Some(img.view_parts()),
            Err(_) => decoded_rgba(bytes@) is None,
        },
{
    let format = image::guess_format(bytes)?;
    let img = image::load_from_memory_with_format(bytes, format)?.to_rgba8();
    Ok(Raster { width: img.width(), height: img.height(), pixels: img.into_raw() })
}

/// Decodes PNG bytes into an RGBA raster; `None` where they hold no
/// image that can be read.
pub fn decode_raster(bytes: &[u8]) -> (r: Option<Raster>)
    ensures
        match r {
            Some(img) => img.wf() && raster_of(bytes@) == Some(img.view_parts()),
            None => raster_of(bytes@) is None,
        },
{
    match load_rgba(bytes) {
        Ok(img) => {
            let w = img.width as u128;
            let h = img.height as u128;
            assert(4 * w * h <= 4 * 0xffff_ffff * 0xffff_ffff) by (nonlinear_arith)
                requires w < 0x1_0000_0000, h < 0x1_0000_0000;
            let need: u128 = 4 * w * h;
            if img.pixels.len() as u128 == need {
                Some(img)
            } else {
                None
            }
        },
        Err(_) => None,
    }
}

/// Relies on egui::ColorImage::example, a 128 x 64 colour ramp whose pixel buffer
/// holds one colour for each pixel; each colour is written out as its four
/// unmultiplied RGBA bytes.
#[verifier::external_body]
pub(crate) fn example_raster() -> (r: Raster)
    ensures
        r.width == 128,
        r.height == 64,
        r.wf(),
{
    let img = egui::ColorImage::example();
    let pixels = img.pixels.iter().flat_map(|c| c.to_srgba_unmultiplied()).collect();
    Raster { width: img.width() as u32, height: img.height() as u32, pixels }
}

} // verus!
