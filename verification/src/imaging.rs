//! PNG encoding of captures and decoding of the tray icon, around the
//! `image` and `png` codecs.
use vstd::prelude::*;
use image::ImageError;
use image::ImageEncoder;

verus! {

#[verifier::external_type_specification]
#[verifier::external_body]
pub struct ExImageError(ImageError);

/// The PNG file the `image` crate's encoder writes for an RGBA8 buffer at
/// fast compression with adaptive filtering, or `None` when it refuses.
pub uninterp spec fn png_encoding(rgba: Seq<u8>, width: u32, height: u32) -> Option<Seq<u8>>;

/// The error the `image` crate's PNG encoder gives when it refuses a buffer.
pub uninterp spec fn png_encoding_error(rgba: Seq<u8>, width: u32, height: u32) -> ImageError;

/// The display text of an `image` error.
pub uninterp spec fn image_error_message(e: ImageError) -> Seq<char>;

/// `PngEncoder::new_with_quality(.., Fast, Adaptive).write_image(.., Rgba8)`
/// of the `image` crate, into a fresh buffer. Claimed: the outcome depends
/// on the pixels and dimensions alone, and a zero width or height is
/// refused (the `png` encoder's header check), while any other size is
/// encoded: RGBA8 is a valid colour combination and writing into a `Vec`
/// cannot fail. The encoder panics on a
/// buffer whose length is not `width * height * 4`, which `requires` rules
/// out.
#[verifier::external_body]
fn write_png_rgba(rgba: &[u8], width: u32, height: u32) -> (r: Result<Vec<u8>, ImageError>)
    requires
        rgba@.len() == width * height * 4,
    ensures
        r is Ok <==> png_encoding(rgba@, width, height) is Some,
        r matches Ok(png) ==> png@ == png_encoding(rgba@, width, height).unwrap(),
        width == 0 || height == 0 ==> r is Err,
        width > 0 && height > 0 ==> r is Ok,
        r matches Err(e) ==> e == png_encoding_error(rgba@, width, height),
{
    let mut png = Vec::new();
    let encoder = image::codecs::png::PngEncoder::new_with_quality(
        std::io::Cursor::new(&mut png),
        image::codecs::png::CompressionType::Fast,
        image::codecs::png::FilterType::Adaptive,
    );
    match encoder.write_image(rgba, width, height, image::ExtendedColorType::Rgba8) {
        Ok(()) => Ok(png),
        Err(e) => Err(e),
    }
}

/// `ToString::to_string` of an `image` error: its display text. Claimed:
/// the text depends on the error alone.
#[verifier::external_body]
fn image_error_text(e: &ImageError) -> (r: String)
    ensures
        r@ == image_error_message(*e),
{
    e.to_string()
}

/// Encodes an RGBA8 buffer as a PNG file.
pub fn encode_png(rgba: &[u8], width: u32, height: u32) -> (r: Result<Vec<u8>, String>)
    requires
        rgba@.len() == width * height * 4,
    ensures
        r is Ok <==> png_encoding(rgba@, width, height) is Some,
        r matches Ok(png) ==> png@ == png_encoding(rgba@, width, height).unwrap(),
        width == 0 || height == 0 ==> r is Err,
        width > 0 && height > 0 ==> r is Ok,
        r matches Err(m) ==> m@ == image_error_message(png_encoding_error(rgba@, width, height)),
{
    match write_png_rgba(rgba, width, height) {
        Ok(png) => Ok(png),
        Err(e) => Err(image_error_text(&e)),
    }
}

/// How the samples of a decoded PNG frame are laid out.
#[derive(Clone, Copy, PartialEq, Eq, Structural, Debug)]
pub enum PixelLayout {
    Grayscale,
    GrayscaleAlpha,
    Rgb,
    Rgba,
    Indexed,
}

/// The first frame of a PNG file, as the `png` decoder hands it out.
pub struct DecodedFrame {
    pub pixels: Vec<u8>,
    pub width: u32,
    pub height: u32,
    pub layout: PixelLayout,
}

/// The first frame the `png` decoder reads from a file: its samples, width,
/// height and layout, or `None` when the file does not decode.
pub uninterp spec fn png_first_frame(bytes: Seq<u8>) -> Option<(Seq<u8>, u32, u32, PixelLayout)>;

/// `Decoder::new(..).read_info()` then `Reader::next_frame` of the `png`
/// crate, the buffer cut to `OutputInfo::buffer_size`. Claimed: the
/// outcome depends on the file's bytes alone.
#[verifier::external_body]
fn decode_png_frame(bytes: &[u8]) -> (r: Option<DecodedFrame>)
    ensures
        match r {
            Some(f) => png_first_frame(bytes@) == Some((f.pixels@, f.width, f.height, f.layout)),
            None => png_first_frame(bytes@) is None,
        },
{
    let mut reader = png::Decoder::new(std::io::Cursor::new(bytes)).read_info().ok()?;
    let mut pixels = vec![0u8; reader.output_buffer_size()];
    let info = reader.next_frame(&mut pixels).ok()?;
    pixels.truncate(info.buffer_size());
    let layout = match info.color_type {
        png::ColorType::Grayscale => PixelLayout::Grayscale,
        png::ColorType::GrayscaleAlpha => PixelLayout::GrayscaleAlpha,
        png::ColorType::Rgb => PixelLayout::Rgb,
        png::ColorType::Rgba => PixelLayout::Rgba,
        png::ColorType::Indexed => PixelLayout::Indexed,
    };
    Some(DecodedFrame { pixels, width: info.width, height: info.height, layout })
}

/// RGB samples with an opaque alpha sample after every third byte.
pub open spec fn rgba_from_rgb(rgb: Seq<u8>) -> Seq<u8>
    decreases rgb.len(),
{
    if rgb.len() < 3 {
        Seq::empty()
    } else {
        let n = rgb.len() as int;
        rgba_from_rgb(rgb.subrange(0, n - 3)) + seq![rgb[n - 3], rgb[n - 2], rgb[n - 1], 255u8]
    }
}

/// Every pixel keeps its colour and becomes fully opaque.
pub proof fn lemma_rgba_from_rgb_pixels(rgb: Seq<u8>)
    requires
        rgb.len() % 3 == 0,
    ensures
        rgba_from_rgb(rgb).len() == rgb.len() / 3 * 4,
        forall|p: int, k: int|
            0 <= p < rgb.len() / 3 && 0 <= k < 3 ==> #[trigger] rgba_from_rgb(rgb)[p * 4 + k] == rgb[p
                * 3 + k],
        forall|p: int| 0 <= p < rgb.len() / 3 ==> #[trigger] rgba_from_rgb(rgb)[p * 4 + 3] == 255u8,
    decreases rgb.len(),
{
    if rgb.len() >= 3 {
        let n = rgb.len() as int;
        let front = rgb.subrange(0, n - 3);
        lemma_rgba_from_rgb_pixels(front);
        let q = front.len() / 3;
        assert(rgb.len() / 3 == q + 1);
        assert forall|p: int, k: int| 0 <= p < rgb.len() / 3 && 0 <= k < 3 implies #[trigger] rgba_from_rgb(
            rgb,
        )[p * 4 + k] == rgb[p * 3 + k] by {
            if p < q {
                assert(p * 4 + k < q * 4) by (nonlinear_arith)
                    requires p < q, 0 <= k < 3;
                assert(p * 3 + k < q * 3) by (nonlinear_arith)
                    requires p < q, 0 <= k < 3;
            } else {
                assert(p == q);
            }
        }
        assert forall|p: int| 0 <= p < rgb.len() / 3 implies #[trigger] rgba_from_rgb(rgb)[p * 4 + 3] == 255u8 by {
            if p < q {
                assert(p * 4 + 3 < q * 4) by (nonlinear_arith)
                    requires p < q;
            }
        }
    }
}

/// Expands RGB samples to RGBA with full opacity.
pub fn rgb_to_rgba(rgb: &[u8]) -> (out: Vec<u8>)
    requires
        rgb@.len() % 3 == 0,
    ensures
        out@ == rgba_from_rgb(rgb@),
{
    let n = rgb.len();
    let mut out: Vec<u8> = Vec::new();
    let mut i: usize = 0;
    proof {
        assert(rgb@.subrange(0, 0) =~= Seq::<u8>::empty());
    }
    while i < n
        invariant
            n == rgb@.len(),
            n % 3 == 0,
            i % 3 == 0,
            i <= n,
            out@ == rgba_from_rgb(rgb@.subrange(0, i as int)),
        decreases n - i,
    {
        let ghost before = out@;
        out.push(rgb[i]);
        out.push(rgb[i + 1]);
        out.push(rgb[i + 2]);
        out.push(255u8);
        proof {
            let next = rgb@.subrange(0, i + 3);
            assert(next.subrange(0, i as int) =~= rgb@.subrange(0, i as int));
            assert(out@ =~= before + seq![rgb@[i as int], rgb@[i + 1], rgb@[i + 2], 255u8]);
        }
        i = i + 3;
    }
    assert(rgb@.subrange(0, n as int) =~= rgb@);
    out
}

/// The RGBA pixels of a decoded frame: RGBA as is, RGB made opaque, no
/// other layout.
pub open spec fn frame_rgba(pixels: Seq<u8>, layout: PixelLayout) -> Option<Seq<u8>> {
    match layout {
        PixelLayout::Rgba => Some(pixels),
        PixelLayout::Rgb => Some(rgba_from_rgb(pixels)),
        _ => None,
    }
}

/// The RGBA pixels, width and height of a decoded frame, when its layout
/// is RGBA or RGB.
pub fn frame_to_rgba(frame: DecodedFrame) -> (r: Option<(Vec<u8>, u32, u32)>)
    requires
        frame.layout == PixelLayout::Rgb ==> frame.pixels@.len() % 3 == 0,
    ensures
        match frame_rgba(frame.pixels@, frame.layout) {
            Some(px) => r matches Some((out, w, h)) && out@ == px && w == frame.width && h == frame.height,
            None => r is None,
        },
{
    match frame.layout {
        PixelLayout::Rgba => Some((frame.pixels, frame.width, frame.height)),
        PixelLayout::Rgb => Some((rgb_to_rgba(frame.pixels.as_slice()), frame.width, frame.height)),
        _ => None,
    }
}

/// The RGBA pixels, width and height of the tray icon's PNG file. An RGB
/// frame whose sample count is not a multiple of three gives `None`.
pub fn tray_icon_rgba(png: &[u8]) -> (r: Option<(Vec<u8>, u32, u32)>)
    ensures
        match png_first_frame(png@) {
            None => r is None,
            Some((pixels, w, h, layout)) => if layout == PixelLayout::Rgb && pixels.len() % 3 != 0 {
                r is None
            } else {
                match frame_rgba(pixels, layout) {
                    Some(px) => r matches Some((out, rw, rh)) && out@ == px && rw == w && rh == h,
                    None => r is None,
                }
            },
        },
{
    match decode_png_frame(png) {
        None => None,
        Some(frame) => {
            if frame.layout == PixelLayout::Rgb && frame.pixels.len() % 3 != 0 {
                None
            } else {
                frame_to_rgba(frame)
            }
        },
    }
}

} // verus!
