//! PNG decoding for the image pipeline: the `png` crate decodes with the
//! `EXPAND` transformation, and the decoded frame is normalised into the tightly packed RGBA8 buffer that an
//! `Rgba8UnormSrgb` texture expects.

use std::io::Cursor;
use vstd::prelude::*;

verus! {

/// Size and sample format of a decoded PNG frame, with the bit depth and
/// colour type as their PNG header codes (bit depth 1/2/4/8/16; colour type
/// 0 grayscale, 2 RGB, 3 indexed, 4 grayscale + alpha, 6 RGBA).
#[derive(Copy, Clone, Debug, PartialEq, Eq, Structural)]
pub struct PngLayout {
    /// Width in pixels.
    pub width: u32,
    /// Height in pixels.
    pub height: u32,
    /// Bits per sample.
    pub bit_depth: u8,
    /// PNG colour type code.
    pub color_type: u8,
}

/// Why a PNG could not be turned into an RGBA8 texture.
#[derive(Copy, Clone, Debug, PartialEq, Eq, Structural)]
pub enum ImageDecodeError {
    /// The PNG header could not be read.
    ReadInfo,
    /// The image data could not be decoded.
    Decode,
    /// Only 8-bit channels are supported; carries the bit depth.
    UnsupportedBitDepth(u8),
    /// Only RGBA, RGB and grayscale + alpha frames are supported; carries
    /// the colour type code.
    UnsupportedColorType(u8),
}

/// A decoded image as tightly packed RGBA8 texels, row-major.
#[derive(Clone, Debug)]
pub struct DecodedImage {
    /// Width in texels.
    pub width: u32,
    /// Height in texels.
    pub height: u32,
    /// `width * height * 4` bytes, row-major.
    pub rgba: Vec<u8>,
}

/// RGB triples widened to RGBA with an opaque alpha; a trailing partial
/// triple is dropped.
pub open spec fn rgb_to_rgba(raw: Seq<u8>) -> Seq<u8> {
    Seq::new(
        ((raw.len() / 3) * 4) as nat,
        |i: int| if i % 4 == 3 { 0xffu8 } else { raw[(i / 4) * 3 + i % 4] },
    )
}

/// Grayscale + alpha pairs widened to RGBA (`g, g, g, a`); a trailing
/// partial pair is dropped.
pub open spec fn gray_alpha_to_rgba(raw: Seq<u8>) -> Seq<u8> {
    Seq::new(
        ((raw.len() / 2) * 4) as nat,
        |i: int| if i % 4 == 3 { raw[(i / 4) * 2 + 1] } else { raw[(i / 4) * 2] },
    )
}

/// The RGBA8 buffer for a decoded frame, or why there is none.
pub open spec fn spec_png_to_rgba8(layout: PngLayout, raw: Seq<u8>) -> Result<Seq<u8>, ImageDecodeError> {
    if layout.bit_depth != 8 {
        Err(ImageDecodeError::UnsupportedBitDepth(layout.bit_depth))
    } else if layout.color_type == 6 {
        Ok(raw)
    } else if layout.color_type == 2 {
        Ok(rgb_to_rgba(raw))
    } else if layout.color_type == 4 {
        Ok(gray_alpha_to_rgba(raw))
    } else {
        Err(ImageDecodeError::UnsupportedColorType(layout.color_type))
    }
}

/// Texel `q`, channel `m` of a 4-byte-per-texel buffer sits at `4 * q + m`.
proof fn lemma_texel_index(q: int, m: int)
    requires
        0 <= q,
        0 <= m < 4,
    ensures
        (4 * q + m) / 4 == q,
        (4 * q + m) % 4 == m,
{
    assert((4 * q + m) / 4 == q && (4 * q + m) % 4 == m) by (nonlinear_arith)
        requires
            0 <= q,
            0 <= m < 4,
    ;
}

/// What the RGBA8 buffer of a frame holds, texel by texel: an 8-bit RGBA
/// frame is kept byte for byte; an 8-bit RGB frame gives one texel per whole
/// input triple, its colour copied and its alpha opaque; an 8-bit grayscale +
/// alpha frame gives one texel per whole input pair, the gray value in each
/// colour channel and the alpha kept. Any other bit depth or colour type is
/// refused, the bit depth first.
pub proof fn lemma_png_to_rgba8_texels(layout: PngLayout, raw: Seq<u8>)
    ensures
        layout.bit_depth != 8 ==> spec_png_to_rgba8(layout, raw) == Err::<Seq<u8>, ImageDecodeError>(
            ImageDecodeError::UnsupportedBitDepth(layout.bit_depth),
        ),
        layout.bit_depth == 8 && layout.color_type == 6 ==> spec_png_to_rgba8(layout, raw) == Ok::<
            Seq<u8>,
            ImageDecodeError,
        >(raw),
        layout.bit_depth == 8 && layout.color_type == 2 ==> match spec_png_to_rgba8(layout, raw) {
            Ok(v) => v.len() == (raw.len() / 3) * 4 && (forall|q: int, m: int|
                0 <= q < raw.len() / 3 && 0 <= m < 3 ==> #[trigger] v[4 * q + m] == raw[3 * q + m])
                && (forall|q: int| 0 <= q < raw.len() / 3 ==> #[trigger] v[4 * q + 3] == 0xffu8),
            Err(_) => false,
        },
        layout.bit_depth == 8 && layout.color_type == 4 ==> match spec_png_to_rgba8(layout, raw) {
            Ok(v) => v.len() == (raw.len() / 2) * 4 && (forall|q: int, m: int|
                0 <= q < raw.len() / 2 && 0 <= m < 3 ==> #[trigger] v[4 * q + m] == raw[2 * q])
                && (forall|q: int| 0 <= q < raw.len() / 2 ==> #[trigger] v[4 * q + 3] == raw[2 * q + 1]),
            Err(_) => false,
        },
        layout.bit_depth == 8 && layout.color_type != 6 && layout.color_type != 2
            && layout.color_type != 4 ==> spec_png_to_rgba8(layout, raw) == Err::<Seq<u8>, ImageDecodeError>(
            ImageDecodeError::UnsupportedColorType(layout.color_type),
        ),
{
    if layout.bit_depth == 8 && layout.color_type == 2 {
        let v = rgb_to_rgba(raw);
        assert forall|q: int, m: int| 0 <= q < raw.len() / 3 && 0 <= m < 3 implies #[trigger] v[4 * q + m]
            == raw[3 * q + m] by {
            lemma_texel_index(q, m);
            assert(4 * q + m < (raw.len() / 3) * 4) by (nonlinear_arith)
                requires
                    0 <= q < raw.len() / 3,
                    0 <= m < 3,
            ;
        }
        assert forall|q: int| 0 <= q < raw.len() / 3 implies #[trigger] v[4 * q + 3] == 0xffu8 by {
            lemma_texel_index(q, 3);
            assert(4 * q + 3 < (raw.len() / 3) * 4) by (nonlinear_arith)
                requires
                    0 <= q < raw.len() / 3,
            ;
        }
    }
    if layout.bit_depth == 8 && layout.color_type == 4 {
        let v = gray_alpha_to_rgba(raw);
        assert forall|q: int, m: int| 0 <= q < raw.len() / 2 && 0 <= m < 3 implies #[trigger] v[4 * q + m]
            == raw[2 * q] by {
            lemma_texel_index(q, m);
            assert(4 * q + m < (raw.len() / 2) * 4) by (nonlinear_arith)
                requires
                    0 <= q < raw.len() / 2,
                    0 <= m < 3,
            ;
        }
        assert forall|q: int| 0 <= q < raw.len() / 2 implies #[trigger] v[4 * q + 3] == raw[2 * q + 1] by {
            lemma_texel_index(q, 3);
            assert(4 * q + 3 < (raw.len() / 2) * 4) by (nonlinear_arith)
                requires
                    0 <= q < raw.len() / 2,
            ;
        }
    }
}

/// Normalises a decoded frame into a tightly packed RGBA8 buffer: RGBA8 is
/// copied, RGB8 gains an opaque alpha, grayscale + alpha is spread over the
/// three colour channels. Other formats are refused.
pub fn png_to_rgba8(layout: &PngLayout, raw: &[u8]) -> (r: Result<Vec<u8>, ImageDecodeError>)
    ensures
        match r {
            Ok(v) => spec_png_to_rgba8(*layout, raw@) == Ok::<Seq<u8>, ImageDecodeError>(v@),
            Err(e) => spec_png_to_rgba8(*layout, raw@) == Err::<Seq<u8>, ImageDecodeError>(e),
        },
        layout.bit_depth != 8 ==> r == Err::<Vec<u8>, ImageDecodeError>(
            ImageDecodeError::UnsupportedBitDepth(layout.bit_depth),
        ),
        layout.bit_depth == 8 && layout.color_type == 6 ==> match r {
            Ok(v) => v@ == raw@,
            Err(_) => false,
        },
        layout.bit_depth == 8 && layout.color_type == 2 ==> match r {
            Ok(v) => v@.len() == (raw@.len() / 3) * 4 && (forall|q: int, m: int|
                0 <= q < raw@.len() / 3 && 0 <= m < 3 ==> #[trigger] v@[4 * q + m] == raw@[3 * q + m])
                && (forall|q: int| 0 <= q < raw@.len() / 3 ==> #[trigger] v@[4 * q + 3] == 0xffu8),
            Err(_) => false,
        },
        layout.bit_depth == 8 && layout.color_type == 4 ==> match r {
            Ok(v) => v@.len() == (raw@.len() / 2) * 4 && (forall|q: int, m: int|
                0 <= q < raw@.len() / 2 && 0 <= m < 3 ==> #[trigger] v@[4 * q + m] == raw@[2 * q])
                && (forall|q: int| 0 <= q < raw@.len() / 2 ==> #[trigger] v@[4 * q + 3] == raw@[2 * q + 1]),
            Err(_) => false,
        },
        layout.bit_depth == 8 && layout.color_type != 6 && layout.color_type != 2
            && layout.color_type != 4 ==> r == Err::<Vec<u8>, ImageDecodeError>(
            ImageDecodeError::UnsupportedColorType(layout.color_type),
        ),
{
    proof {
        lemma_png_to_rgba8_texels(*layout, raw@);
    }
    if layout.bit_depth != 8 {
        return Err(ImageDecodeError::UnsupportedBitDepth(layout.bit_depth));
    }
    if layout.color_type == 6 {
        Ok(vstd::slice::slice_to_vec(raw))
    } else if layout.color_type == 2 {
        Ok(expand_rgb(raw))
    } else if layout.color_type == 4 {
        Ok(expand_gray_alpha(raw))
    } else {
        Err(ImageDecodeError::UnsupportedColorType(layout.color_type))
    }
}

fn expand_rgb(raw: &[u8]) -> (r: Vec<u8>)
    ensures
        r@ == rgb_to_rgba(raw@),
{
    let len = raw.len();
    let n = len / 3;
    let mut out: Vec<u8> = Vec::new();
    let mut k: usize = 0;
    while k < n
        invariant
            len == raw@.len(),
            n == raw@.len() / 3,
            3 * n <= raw@.len(),
            k <= n,
            out@.len() == 4 * k,
            forall|q: int, m: int|
                0 <= q < k && 0 <= m < 4 ==> #[trigger] out@[4 * q + m] == (if m == 3 {
                    0xffu8
                } else {
                    raw@[3 * q + m]
                }),
        decreases n - k,
    {
        out.push(raw[3 * k]);
        out.push(raw[3 * k + 1]);
        out.push(raw[3 * k + 2]);
        out.push(0xff);
        k += 1;
    }
    proof {
        let s = rgb_to_rgba(raw@);
        assert forall|i: int| 0 <= i < s.len() implies out@[i] == s[i] by {
            let q = i / 4;
            let m = i % 4;
            assert(i == 4 * q + m);
            assert(out@[4 * q + m] == (if m == 3 { 0xffu8 } else { raw@[3 * q + m] }));
        }
        assert(out@ =~= s);
    }
    out
}

fn expand_gray_alpha(raw: &[u8]) -> (r: Vec<u8>)
    ensures
        r@ == gray_alpha_to_rgba(raw@),
{
    let len = raw.len();
    let n = len / 2;
    let mut out: Vec<u8> = Vec::new();
    let mut k: usize = 0;
    while k < n
        invariant
            len == raw@.len(),
            n == raw@.len() / 2,
            2 * n <= raw@.len(),
            k <= n,
            out@.len() == 4 * k,
            forall|q: int, m: int|
                0 <= q < k && 0 <= m < 4 ==> #[trigger] out@[4 * q + m] == (if m == 3 {
                    raw@[2 * q + 1]
                } else {
                    raw@[2 * q]
                }),
        decreases n - k,
    {
        let g = raw[2 * k];
        let a = raw[2 * k + 1];
        out.push(g);
        out.push(g);
        out.push(g);
        out.push(a);
        k += 1;
    }
    proof {
        let s = gray_alpha_to_rgba(raw@);
        assert forall|i: int| 0 <= i < s.len() implies out@[i] == s[i] by {
            let q = i / 4;
            let m = i % 4;
            assert(i == 4 * q + m);
            assert(out@[4 * q + m] == (if m == 3 { raw@[2 * q + 1] } else { raw@[2 * q] }));
        }
        assert(out@ =~= s);
    }
    out
}

/// What the `png` crate decodes from `bytes` with the `EXPAND`
/// transformation: the first frame's output layout and samples, or the
/// stage that failed.
pub uninterp spec fn png_first_frame(bytes: Seq<u8>) -> Result<(PngLayout, Seq<u8>), ImageDecodeError>;

/// Decodes the first frame of a PNG with the `png` crate: `Decoder::new`
/// over the bytes with `set_transformations(EXPAND)` (palettes become RGB,
/// sub-8-bit grayscale becomes 8-bit, a `tRNS` chunk becomes an alpha
/// channel), `read_info` (failure: `ReadInfo`), the header's width and
/// height with the output colour type and bit depth that
/// `output_color_type` reports, then `next_frame` into a buffer of
/// `output_buffer_size()` bytes (failure: `Decode`). The result is a
/// function of the bytes alone and is named by `png_first_frame`; nothing
/// more is stated of it.
#[verifier::external_body]
fn png_decode_first_frame(bytes: &[u8]) -> (r: Result<(PngLayout, Vec<u8>), ImageDecodeError>)
    ensures
        match r {
            Ok((layout, raw)) => png_first_frame(bytes@) == Ok::<
                (PngLayout, Seq<u8>),
                ImageDecodeError,
            >((layout, raw@)),
            Err(e) => png_first_frame(bytes@) == Err::<(PngLayout, Seq<u8>), ImageDecodeError>(e),
        },
{
    let mut decoder = png::Decoder::new(Cursor::new(bytes));
    decoder.set_transformations(png::Transformations::EXPAND);
    let mut reader = decoder.read_info().map_err(|_| ImageDecodeError::ReadInfo)?;
    let (color, depth) = reader.output_color_type();
    let (width, height) = (reader.info().width, reader.info().height);
    let layout = PngLayout { width, height, bit_depth: depth as u8, color_type: color as u8 };
    let mut raw = vec![0u8; reader.output_buffer_size()];
    reader.next_frame(&mut raw).map_err(|_| ImageDecodeError::Decode)?;
    Ok((layout, raw))
}

/// The image that `load_image_png` gives for a decoded frame.
pub open spec fn spec_decoded(layout: PngLayout, raw: Seq<u8>) -> Result<(u32, u32, Seq<u8>), ImageDecodeError> {
    match spec_png_to_rgba8(layout, raw) {
        Ok(rgba) => Ok((layout.width, layout.height, rgba)),
        Err(e) => Err(e),
    }
}

/// Decodes a PNG byte buffer into an RGBA8 image ready for upload.
pub fn load_image_png(png_bytes: &[u8]) -> (r: Result<DecodedImage, ImageDecodeError>)
    ensures
        match png_first_frame(png_bytes@) {
            Err(e) => r == Err::<DecodedImage, ImageDecodeError>(e),
            Ok((layout, raw)) => match r {
                Ok(img) => spec_decoded(layout, raw) == Ok::<(u32, u32, Seq<u8>), ImageDecodeError>(
                    (img.width, img.height, img.rgba@),
                ),
                Err(e) => spec_decoded(layout, raw) == Err::<(u32, u32, Seq<u8>), ImageDecodeError>(e),
            },
        },
        match png_first_frame(png_bytes@) {
            Ok((layout, raw)) => layout.bit_depth == 8 && layout.color_type == 6 ==> match r {
                Ok(img) => img.width == layout.width && img.height == layout.height && img.rgba@ == raw,
                Err(_) => false,
            },
            Err(_) => true,
        },
{
    let (layout, raw) = match png_decode_first_frame(png_bytes) {
        Ok(frame) => frame,
        Err(e) => return Err(e),
    };
    match png_to_rgba8(&layout, raw.as_slice()) {
        Ok(rgba) => Ok(DecodedImage { width: layout.width, height: layout.height, rgba }),
        Err(e) => Err(e),
    }
}

} // verus!
