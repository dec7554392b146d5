//! The calls into the `png` crate: encoding RGB8 previews and decoding
//! embedded preview images.
//!
//! What the codec computes is not restated here; each result is named and
//! tied to the call's arguments, so the library's contracts can speak of
//! it exactly.
use vstd::prelude::*;

verus! {

/// The PNG file signature.
pub open spec fn png_signature() -> Seq<u8> {
    seq![0x89u8, 0x50u8, 0x4eu8, 0x47u8, 0x0du8, 0x0au8, 0x1au8, 0x0au8]
}

/// What the `png` encoder produces for 8-bit RGB pixels `rgb` at
/// `width` × `height` (`None` when it refuses).
pub uninterp spec fn png_rgb8_encoding(rgb: Seq<u8>, width: u32, height: u32) -> Option<Seq<u8>>;

/// What the `png` decoder, set to normalize to 8-bit colour and limited to
/// `limit_bytes` of allocation, reads from the header of `bytes`: the
/// image size, or the decoder's error message.
pub uninterp spec fn png_header(bytes: Seq<u8>, limit_bytes: usize) -> Result<(u32, u32), Seq<char>>;

/// What the same decoder reads as the first frame of `bytes`: the frame's
/// pixel bytes and the PNG colour-type code of the output, or the error
/// message tagged with whether it came from the header (`true`) or the
/// image data (`false`).
pub uninterp spec fn png_frame(bytes: Seq<u8>, limit_bytes: usize) -> Result<(Seq<u8>, u8), (bool, Seq<char>)>;

/// The view of an optional byte buffer.
pub open spec fn bytes_view(o: Option<Vec<u8>>) -> Option<Seq<u8>> {
    match o {
        Some(v) => Some(v@),
        None => None,
    }
}

/// The view of a header result.
pub open spec fn header_view(r: Result<(u32, u32), String>) -> Result<(u32, u32), Seq<char>> {
    match r {
        Ok(d) => Ok(d),
        Err(e) => Err(e@),
    }
}

/// The view of a frame result.
pub open spec fn frame_view(r: Result<(Vec<u8>, u8), (bool, String)>) -> Result<(Seq<u8>, u8), (bool, Seq<char>)> {
    match r {
        Ok((p, c)) => Ok((p@, c)),
        Err((h, e)) => Err((h, e@)),
    }
}

/// Encodes `rgb` with `png::Encoder` (RGB, 8-bit, and the compression
/// that `Info::with_size` sets, which is `Compression::Fast`, not the
/// enum's own `Default` level) into a fresh buffer: `Encoder::new`, `set_color`,
/// `set_depth`, `write_header`, `write_image_data`. Claimed: the result
/// is a function of the arguments; the encoder refuses a zero width or
/// height (`write_header` checks both first); a successful encoding
/// starts with the PNG signature (`write_header` writes it before
/// anything else); and `rgb` of exactly `width` × `height` × 3 bytes with
/// both sides non-zero always encodes: RGB at depth 8 is a valid
/// combination, `write_image_data` then fails only on a length mismatch,
/// and every write goes into a `Vec`, which cannot fail. The bound in
/// `requires` keeps the encoder's own size arithmetic (the row length
/// times the height, the filter bytes, the compressed size) and its
/// output buffer within `isize::MAX`.
#[verifier::external_body]
pub(crate) fn png_encode_rgb8(rgb: &[u8], width: u32, height: u32) -> (r: Option<Vec<u8>>)
    requires
        (width as int) * (height as int) * 8 <= isize::MAX,
    ensures
        bytes_view(r) == png_rgb8_encoding(rgb@, width, height),
        width == 0 || height == 0 ==> r is None,
        width > 0 && height > 0 && rgb@.len() == (width as int) * (height as int) * 3 ==> r is Some,
        r matches Some(b) ==> b@.len() >= 8 && b@.take(8) == png_signature(),
{
    let mut buf: Vec<u8> = Vec::new();
    {
        let mut encoder = png::Encoder::new(std::io::Cursor::new(&mut buf), width, height);
        encoder.set_color(png::ColorType::Rgb);
        encoder.set_depth(png::BitDepth::Eight);
        let mut writer = encoder.write_header().ok()?;
        writer.write_image_data(rgb).ok()?;
    }
    Some(buf)
}

/// What a `png::Decoder` with its defaults (no transformations, the
/// default allocation limit) reads from `bytes`: the header's width and
/// height, the first frame's bytes as stored, and the header's PNG
/// colour-type code; or the decoder's error message.
pub uninterp spec fn png_image(bytes: Seq<u8>) -> Result<(u32, u32, Seq<u8>, u8), Seq<char>>;

/// The view of a whole-image result.
pub open spec fn image_view(r: Result<(u32, u32, Vec<u8>, u8), String>) -> Result<(u32, u32, Seq<u8>, u8), Seq<char>> {
    match r {
        Ok((w, h, p, c)) => Ok((w, h, p@, c)),
        Err(e) => Err(e@),
    }
}

/// Decodes `bytes` with `png::Decoder::new` as it comes (identity
/// transformations, default limits): `read_info`, then `next_frame` into
/// a buffer of `output_buffer_size` cut to the frame's `buffer_size`;
/// returns the header's width, height and colour-type code with those
/// bytes, or the decoder's error as text. Claimed: the result is a
/// function of `bytes`.
#[verifier::external_body]
pub(crate) fn png_read_image(bytes: &[u8]) -> (r: Result<(u32, u32, Vec<u8>, u8), String>)
    ensures
        image_view(r) == png_image(bytes@),
{
    let decoder = png::Decoder::new(bytes);
    let mut reader = decoder.read_info().map_err(|err| err.to_string())?;
    let info = reader.info().clone();
    let mut buf = vec![0u8; reader.output_buffer_size()];
    let frame = reader.next_frame(&mut buf).map_err(|err| err.to_string())?;
    buf.truncate(frame.buffer_size());
    Ok((info.width, info.height, buf, info.color_type as u8))
}

/// Reads the header of `bytes` with `png::Decoder` (transformations
/// `normalize_to_color8`, allocation limit `limit_bytes`) through
/// `read_info`, and returns the declared width and height, or the
/// decoder's error as text. Claimed: the result is a function of the
/// arguments.
#[verifier::external_body]
pub(crate) fn png_read_header(bytes: &[u8], limit_bytes: usize) -> (r: Result<(u32, u32), String>)
    ensures
        header_view(r) == png_header(bytes@, limit_bytes),
{
    let mut decoder = png::Decoder::new(bytes);
    decoder.set_transformations(png::Transformations::normalize_to_color8());
    decoder.set_limits(png::Limits { bytes: limit_bytes });
    let reader = decoder.read_info().map_err(|err| err.to_string())?;
    Ok((reader.info().width, reader.info().height))
}

/// Decodes the first frame of `bytes` with the same decoder settings as
/// [`png_read_header`] (`read_info`, then `next_frame` into a buffer of
/// `output_buffer_size`), and returns the frame's bytes with the output
/// colour type's PNG code. Claimed: the result is a function of the
/// arguments.
#[verifier::external_body]
pub(crate) fn png_read_frame(bytes: &[u8], limit_bytes: usize) -> (r: Result<(Vec<u8>, u8), (bool, String)>)
    ensures
        frame_view(r) == png_frame(bytes@, limit_bytes),
{
    let mut decoder = png::Decoder::new(bytes);
    decoder.set_transformations(png::Transformations::normalize_to_color8());
    decoder.set_limits(png::Limits { bytes: limit_bytes });
    let mut reader = decoder.read_info().map_err(|err| (true, err.to_string()))?;
    let mut buf = vec![0u8; reader.output_buffer_size()];
    let frame = reader.next_frame(&mut buf).map_err(|err| (false, err.to_string()))?;
    buf.truncate(frame.buffer_size());
    Ok((buf, reader.output_color_type().0 as u8))
}

} // verus!
