//! Raster image decoding: PNG and JPEG bytes to straight RGBA8.
//!
//! The codecs are `zune-png` and `zune-jpeg`; what this module owns is the format
//! sniffing, the sample-depth reduction and the expansion of 1–4 channel pixels
//! to RGBA.

use vstd::prelude::*;
use zune_jpeg::zune_core::bytestream::ZCursor;
use zune_jpeg::zune_core::colorspace::ColorSpace;
use zune_jpeg::zune_core::options::DecoderOptions;

verus! {

/// A decoded image as straight (un-premultiplied) RGBA8, row-major (`w*h*4`).
pub struct DecodedImage {
    pub width: u32,
    pub height: u32,
    pub rgba: Vec<u8>,
}

/// Rendered pixels as straight (un-premultiplied) RGBA, ready for a canvas
/// `ImageData`: `width * height` pixels, row-major, four bytes each.
pub struct Rgba {
    pub width: u32,
    pub height: u32,
    pub data: Vec<u8>,
}

/// Spec-level value of a [`DecodedImage`].
pub struct ImageView {
    pub width: u32,
    pub height: u32,
    pub rgba: Seq<u8>,
}

impl View for DecodedImage {
    type V = ImageView;

    open spec fn view(&self) -> ImageView {
        ImageView { width: self.width, height: self.height, rgba: self.rgba@ }
    }
}

/// Sample buffer produced by the PNG codec.
pub enum PngSamples {
    Eight(Vec<u8>),
    Sixteen(Vec<u16>),
    Other,
}

/// Spec-level value of [`PngSamples`].
pub enum PngSamplesView {
    Eight(Seq<u8>),
    Sixteen(Seq<u16>),
    Other,
}

/// What the PNG codec reports after decoding: samples, dimensions, channel count.
pub struct PngRaw {
    pub samples: PngSamples,
    pub dims: Option<(usize, usize)>,
    pub channels: Option<usize>,
}

/// Spec-level value of [`PngRaw`].
pub struct PngRawView {
    pub samples: PngSamplesView,
    pub dims: Option<(usize, usize)>,
    pub channels: Option<usize>,
}

impl View for PngRaw {
    type V = PngRawView;

    open spec fn view(&self) -> PngRawView {
        PngRawView {
            samples: match &self.samples {
                PngSamples::Eight(v) => PngSamplesView::Eight(v@),
                PngSamples::Sixteen(v) => PngSamplesView::Sixteen(v@),
                PngSamples::Other => PngSamplesView::Other,
            },
            dims: self.dims,
            channels: self.channels,
        }
    }
}

/// What the JPEG codec reports after decoding to RGBA: pixels and dimensions.
pub struct JpegRaw {
    pub pixels: Vec<u8>,
    pub dims: Option<(usize, usize)>,
}

/// What `zune_png` decodes from `bytes` (`None` when it reports an error).
pub uninterp spec fn png_decoding(bytes: Seq<u8>) -> Option<PngRawView>;

/// What `zune_jpeg`, asked for RGBA output, decodes from `bytes`: pixels and
/// dimensions (`None` when it reports an error).
pub uninterp spec fn jpeg_decoding(bytes: Seq<u8>) -> Option<(Seq<u8>, Option<(usize, usize)>)>;

/// Runs `zune_png::PngDecoder::decode` on `bytes`, then reads the decoder's
/// dimensions and colour space. The contract only names the result.
#[verifier::external_body]
fn png_decode(bytes: &[u8]) -> (r: Option<PngRaw>)
    ensures
        match r {
            Some(p) => png_decoding(bytes@) == Some(p@),
            None => png_decoding(bytes@) is None,
        },
{
    let mut dec = zune_png::PngDecoder::new(bytes);
    let result = match dec.decode() {
        Ok(res) => res,
        Err(_) => return None,
    };
    let samples = match result {
        zune_png::zune_core::result::DecodingResult::U8(v) => PngSamples::Eight(v),
        zune_png::zune_core::result::DecodingResult::U16(v) => PngSamples::Sixteen(v),
        _ => PngSamples::Other,
    };
    let channels = match dec.get_colorspace() {
        Some(c) => Some(c.num_components()),
        None => None,
    };
    Some(PngRaw { samples, dims: dec.get_dimensions(), channels })
}

/// Runs `zune_jpeg::JpegDecoder::decode` on `bytes` with RGBA output, then reads
/// the decoder's dimensions. The contract only names the result.
#[verifier::external_body]
fn jpeg_decode(bytes: &[u8]) -> (r: Option<JpegRaw>)
    ensures
        match r {
            Some(j) => jpeg_decoding(bytes@) == Some((j.pixels@, j.dims)),
            None => jpeg_decoding(bytes@) is None,
        },
{
    let opts = DecoderOptions::default().jpeg_set_out_colorspace(ColorSpace::RGBA);
    let mut dec = zune_jpeg::JpegDecoder::new_with_options(ZCursor::new(bytes), opts);
    match dec.decode() {
        Ok(pixels) => Some(JpegRaw { pixels, dims: dec.dimensions() }),
        Err(_) => None,
    }
}

/// The eight PNG signature bytes.
pub open spec fn png_magic(b: Seq<u8>) -> bool {
    b.len() >= 8 && b[0] == 0x89u8 && b[1] == 0x50u8 && b[2] == 0x4Eu8 && b[3] == 0x47u8 && b[4]
        == 0x0Du8 && b[5] == 0x0Au8 && b[6] == 0x1Au8 && b[7] == 0x0Au8
}

/// The JPEG start-of-image marker followed by a marker byte.
pub open spec fn jpeg_magic(b: Seq<u8>) -> bool {
    b.len() >= 3 && b[0] == 0xFFu8 && b[1] == 0xD8u8 && b[2] == 0xFFu8
}

/// One RGBA byte of pixel expansion: channel `k` (0..4) of pixel `i`.
pub open spec fn expand_byte(src: Seq<u8>, channels: nat, i: int, k: int) -> u8 {
    if channels == 4 {
        src[i * 4 + k]
    } else if channels == 3 {
        if k < 3 {
            src[i * 3 + k]
        } else {
            255u8
        }
    } else if channels == 2 {
        if k < 3 {
            src[i * 2]
        } else {
            src[i * 2 + 1]
        }
    } else {
        if k < 3 {
            src[i]
        } else {
            255u8
        }
    }
}

/// RGBA expansion of `px_count` pixels of `channels` channels each, or `None`
/// for an empty image, a short buffer, an unsupported channel count or an
/// output size beyond `usize`.
pub open spec fn spec_to_rgba(src: Seq<u8>, channels: nat, px_count: nat) -> Option<Seq<u8>> {
    if px_count == 0 || src.len() < px_count * channels || !(1 <= channels <= 4) || px_count * 4
        > usize::MAX {
        None
    } else {
        Some(Seq::new(px_count * 4, |j: int| expand_byte(src, channels, j / 4, j % 4)))
    }
}

/// 16-bit samples reduced to their high byte.
pub open spec fn high_bytes(v: Seq<u16>) -> Seq<u8> {
    Seq::new(v.len(), |i: int| (v[i] >> 8u16) as u8)
}

/// Decoded PNG for the codec's answer `raw`.
pub open spec fn png_image(raw: PngRawView) -> Option<ImageView> {
    let bytes8 = match raw.samples {
        PngSamplesView::Eight(v) => Some(v),
        PngSamplesView::Sixteen(v) => Some(high_bytes(v)),
        PngSamplesView::Other => None,
    };
    match (bytes8, raw.dims) {
        (Some(b), Some((w, h))) => if w > u32::MAX || h > u32::MAX || w * h > usize::MAX {
            None
        } else {
            let channels: nat = match raw.channels {
                Some(c) => c as nat,
                None => 0,
            };
            match spec_to_rgba(b, channels, (w * h) as nat) {
                Some(rgba) => Some(ImageView { width: w as u32, height: h as u32, rgba }),
                None => None,
            }
        },
        _ => None,
    }
}

/// Decoded JPEG for the codec's answer `pixels`/`dims`.
pub open spec fn jpeg_image(pixels: Seq<u8>, dims: Option<(usize, usize)>) -> Option<ImageView> {
    match dims {
        Some((w, h)) => if w > u32::MAX || h > u32::MAX || w * h * 4 > usize::MAX || pixels.len()
            < w * h * 4 {
            None
        } else {
            Some(ImageView { width: w as u32, height: h as u32, rgba: pixels.take(w * h * 4) })
        },
        None => None,
    }
}

/// What [`decode`] returns for `bytes`.
pub open spec fn spec_decode(bytes: Seq<u8>) -> Option<ImageView> {
    if png_magic(bytes) {
        match png_decoding(bytes) {
            Some(raw) => png_image(raw),
            None => None,
        }
    } else if jpeg_magic(bytes) {
        match jpeg_decoding(bytes) {
            Some((px, dims)) => jpeg_image(px, dims),
            None => None,
        }
    } else {
        None
    }
}

/// Decode PNG or JPEG bytes. Returns `None` for unsupported formats
/// (EMF/WMF/GIF/WebP/BMP/TIFF) or on decode failure.
pub fn decode(bytes: &[u8]) -> (r: Option<DecodedImage>)
    ensures
        match r {
            Some(img) => spec_decode(bytes@) == Some(img@),
            None => spec_decode(bytes@) is None,
        },
        !png_magic(bytes@) && !jpeg_magic(bytes@) ==> r is None,
        r matches Some(img) ==> img.rgba@.len() == img.width * img.height * 4,
{
    if bytes.len() >= 8 && bytes[0] == 0x89 && bytes[1] == 0x50 && bytes[2] == 0x4E && bytes[3]
        == 0x47 && bytes[4] == 0x0D && bytes[5] == 0x0A && bytes[6] == 0x1A && bytes[7] == 0x0A {
        decode_png(bytes)
    } else if bytes.len() >= 3 && bytes[0] == 0xFF && bytes[1] == 0xD8 && bytes[2] == 0xFF {
        decode_jpeg(bytes)
    } else {
        None
    }
}

fn decode_png(bytes: &[u8]) -> (r: Option<DecodedImage>)
    ensures
        match r {
            Some(img) => png_decoding(bytes@) matches Some(raw) && png_image(raw) == Some(img@),
            None => png_decoding(bytes@) matches Some(raw) ==> png_image(raw) is None,
        },
{
    let raw = match png_decode(bytes) {
        Some(raw) => raw,
        None => return None,
    };
    let ghost rv = raw@;
    let bytes8: Vec<u8> = match raw.samples {
        PngSamples::Eight(v) => v,
        PngSamples::Sixteen(v) => high_byte_samples(&v),
        PngSamples::Other => return None,
    };
    let (w, h) = match raw.dims {
        Some(d) => d,
        None => return None,
    };
    let channels: usize = match raw.channels {
        Some(c) => c,
        None => 0,
    };
    if w > 0xFFFF_FFFF || h > 0xFFFF_FFFF {
        return None;
    }
    let px_count = match w.checked_mul(h) {
        Some(n) => n,
        None => return None,
    };
    let rgba = match to_rgba(&bytes8, channels, px_count) {
        Some(v) => v,
        None => return None,
    };
    Some(DecodedImage { width: w as u32, height: h as u32, rgba })
}

fn decode_jpeg(bytes: &[u8]) -> (r: Option<DecodedImage>)
    ensures
        match r {
            Some(img) => jpeg_decoding(bytes@) matches Some((px, dims)) && jpeg_image(px, dims)
                == Some(img@),
            None => jpeg_decoding(bytes@) matches Some((px, dims)) ==> jpeg_image(px, dims) is None,
        },
{
    let raw = match jpeg_decode(bytes) {
        Some(raw) => raw,
        None => return None,
    };
    let (w, h) = match raw.dims {
        Some(d) => d,
        None => return None,
    };
    if w > 0xFFFF_FFFF || h > 0xFFFF_FFFF {
        return None;
    }
    let n = match w.checked_mul(h) {
        Some(n) => n,
        None => return None,
    };
    let need = match n.checked_mul(4) {
        Some(m) => m,
        None => return None,
    };
    if raw.pixels.len() < need {
        return None;
    }
    let mut rgba = raw.pixels;
    rgba.truncate(need);
    assert(rgba@ =~= raw.pixels@.take(need as int));
    Some(DecodedImage { width: w as u32, height: h as u32, rgba })
}

/// 16-bit samples reduced to 8 bits by keeping the high byte.
fn high_byte_samples(v: &Vec<u16>) -> (out: Vec<u8>)
    ensures
        out@ == high_bytes(v@),
{
    let mut out: Vec<u8> = Vec::new();
    let mut i: usize = 0;
    while i < v.len()
        invariant
            i <= v.len(),
            out@ =~= high_bytes(v@).take(i as int),
        decreases v.len() - i,
    {
        out.push((v[i] >> 8u16) as u8);
        i += 1;
    }
    out
}

/// Expand `channels`-channel pixels to RGBA8: grey and grey+alpha replicate the
/// grey value into R, G and B; missing alpha becomes 255.
pub fn to_rgba(src: &[u8], channels: usize, px_count: usize) -> (r: Option<Vec<u8>>)
    ensures
        match r {
            Some(v) => spec_to_rgba(src@, channels as nat, px_count as nat) == Some(v@),
            None => spec_to_rgba(src@, channels as nat, px_count as nat) is None,
        },
{
    let need = match px_count.checked_mul(channels) {
        Some(n) => n,
        None => {
            proof {
                assert(src@.len() == src.len());
            }
            return None;
        },
    };
    if px_count == 0 || src.len() < need || channels == 0 || channels > 4 {
        return None;
    }
    let total = match px_count.checked_mul(4) {
        Some(t) => t,
        None => return None,
    };
    let ghost spec = Seq::new(
        (px_count * 4) as nat,
        |j: int| expand_byte(src@, channels as nat, j / 4, j % 4),
    );
    let mut out: Vec<u8> = Vec::new();
    let mut i: usize = 0;
    while i < px_count
        invariant
            i <= px_count,
            px_count * 4 == total,
            px_count * channels <= src.len(),
            1 <= channels <= 4,
            spec == Seq::new(
                (px_count * 4) as nat,
                |j: int| expand_byte(src@, channels as nat, j / 4, j % 4),
            ),
            out@ =~= spec.take(i * 4),
        decreases px_count - i,
    {
        proof {
            assert(i * channels + channels <= px_count * channels) by (nonlinear_arith)
                requires i < px_count;
        }
        let o = i * channels;
        let (p0, p1, p2, p3) = if channels == 4 {
            (src[o], src[o + 1], src[o + 2], src[o + 3])
        } else if channels == 3 {
            (src[o], src[o + 1], src[o + 2], 255u8)
        } else if channels == 2 {
            (src[o], src[o], src[o], src[o + 1])
        } else {
            (src[o], src[o], src[o], 255u8)
        };
        out.push(p0);
        out.push(p1);
        out.push(p2);
        out.push(p3);
        proof {
            assert forall|j: int| 0 <= j < 4 implies spec[i * 4 + j] == expand_byte(
                src@,
                channels as nat,
                i as int,
                j,
            ) by {
                assert((i * 4 + j) / 4 == i as int);
                assert((i * 4 + j) % 4 == j);
            }
        }
        i += 1;
    }
    Some(out)
}

} // verus!
