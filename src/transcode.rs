use vstd::prelude::*;
use crate::dims::{target_dimensions, target_size};
use crate::errors::ImageikaError;

verus! {

/// Width, height and RGBA pixels (four bytes each, row by row) of the image
/// that `bytes` decode to, or `None` where they decode to no image.
pub uninterp spec fn decoded_rgba(bytes: Seq<u8>) -> Option<(u32, u32, Seq<u8>)>;

/// The RGBA pixels of a `w` x `h` image with color multiplied by alpha.
pub uninterp spec fn premultiplied(w: u32, h: u32, pixels: Seq<u8>) -> Seq<u8>;

/// The RGBA pixels of a `w` x `h` image with color divided by alpha.
pub uninterp spec fn unpremultiplied(w: u32, h: u32, pixels: Seq<u8>) -> Seq<u8>;

/// The RGBA pixels of a `sw` x `sh` image resampled to `dw` x `dh` with the
/// Lanczos3 convolution.
pub uninterp spec fn lanczos3(sw: u32, sh: u32, pixels: Seq<u8>, dw: u32, dh: u32) -> Seq<u8>;

/// The encoding of a `w` x `h` RGBA image in the format that the content of
/// `source` announces, or `None` where that format cannot be written.
pub uninterp spec fn encoded_as(source: Seq<u8>, pixels: Seq<u8>, w: u32, h: u32) -> Option<Seq<u8>>;

/// A decoded image as 8-bit RGBA pixels, row by row.
pub struct Rgba {
    pub width: u32,
    pub height: u32,
    pub pixels: Vec<u8>,
}

/// An image scaled down and encoded again in its own format.
pub struct Transcoded {
    pub width: u32,
    pub height: u32,
    pub bytes: Vec<u8>,
}

/// Relies on image::load_from_memory, which detects the format from the
/// content and decodes, and on DynamicImage::to_rgba8, whose buffer holds four
/// bytes for each pixel.
#[verifier::external_body]
fn decode_rgba(bytes: &Vec<u8>) -> (r: Result<Rgba, image::ImageError>)
    ensures
        r is Ok <==> decoded_rgba(bytes@) is Some,
        r matches Ok(img) ==> decoded_rgba(bytes@) == Some((img.width, img.height, img.pixels@))
            && img.pixels@.len() == 4 * img.width * img.height,
{
    let img = image::load_from_memory(bytes)?.to_rgba8();
    Ok(Rgba { width: img.width(), height: img.height(), pixels: img.into_raw() })
}

/// Relies on fast_image_resize::Image::from_vec_u8 and
/// MulDiv::multiply_alpha_inplace, which supports four-byte pixels and so
/// does not fail on them. from_vec_u8 fails where the buffer's address is not
/// aligned for four-byte pixels, which the allocator decides.
#[verifier::external_body]
fn multiply_alpha(w: u32, h: u32, pixels: Vec<u8>) -> (r: Result<Vec<u8>, ImageikaError>)
    requires
        w > 0,
        h > 0,
        w * h <= u32::MAX,
        pixels@.len() == 4 * w * h,
    ensures
        r matches Ok(v) ==> v@ == premultiplied(w, h, pixels@) && v@.len() == pixels@.len(),
        r matches Err(e) ==> e is ImageBufferError,
{
    let (w, h) = (std::num::NonZeroU32::new(w).unwrap(), std::num::NonZeroU32::new(h).unwrap());
    let mut img = fast_image_resize::Image::from_vec_u8(w, h, pixels, fast_image_resize::PixelType::U8x4)
        .map_err(ImageikaError::ImageBufferError)?;
    fast_image_resize::MulDiv::default().multiply_alpha_inplace(&mut img.view_mut())
        .map_err(ImageikaError::MulDivImageError)?;
    Ok(img.into_vec())
}

/// Relies on fast_image_resize::Image::from_vec_u8 and
/// MulDiv::divide_alpha_inplace, which supports four-byte pixels and so does
/// not fail on them. from_vec_u8 fails where the buffer's address is not
/// aligned for four-byte pixels, which the allocator decides.
#[verifier::external_body]
fn divide_alpha(w: u32, h: u32, pixels: Vec<u8>) -> (r: Result<Vec<u8>, ImageikaError>)
    requires
        w > 0,
        h > 0,
        w * h <= u32::MAX,
        pixels@.len() == 4 * w * h,
    ensures
        r matches Ok(v) ==> v@ == unpremultiplied(w, h, pixels@) && v@.len() == pixels@.len(),
        r matches Err(e) ==> e is ImageBufferError,
{
    let (w, h) = (std::num::NonZeroU32::new(w).unwrap(), std::num::NonZeroU32::new(h).unwrap());
    let mut img = fast_image_resize::Image::from_vec_u8(w, h, pixels, fast_image_resize::PixelType::U8x4)
        .map_err(ImageikaError::ImageBufferError)?;
    fast_image_resize::MulDiv::default().divide_alpha_inplace(&mut img.view_mut())
        .map_err(ImageikaError::MulDivImageError)?;
    Ok(img.into_vec())
}

/// Relies on fast_image_resize::Resizer::resize with the Lanczos3 convolution
/// into a new `dw` x `dh` image (Image::new). from_vec_u8 fails where the
/// buffer's address is not aligned for four-byte pixels.
#[verifier::external_body]
fn resample_lanczos3(sw: u32, sh: u32, pixels: Vec<u8>, dw: u32, dh: u32) -> (r: Result<Vec<u8>, ImageikaError>)
    requires
        sw > 0,
        sh > 0,
        sw * sh <= u32::MAX,
        pixels@.len() == 4 * sw * sh,
        dw > 0,
        dh > 0,
        dw * dh <= u32::MAX,
    ensures
        r matches Ok(v) ==> v@ == lanczos3(sw, sh, pixels@, dw, dh) && v@.len() == 4 * dw * dh,
        r matches Err(e) ==> e is ImageBufferError,
{
    let (sw, sh) = (std::num::NonZeroU32::new(sw).unwrap(), std::num::NonZeroU32::new(sh).unwrap());
    let (dw, dh) = (std::num::NonZeroU32::new(dw).unwrap(), std::num::NonZeroU32::new(dh).unwrap());
    let src = fast_image_resize::Image::from_vec_u8(sw, sh, pixels, fast_image_resize::PixelType::U8x4)
        .map_err(ImageikaError::ImageBufferError)?;
    let mut dst = fast_image_resize::Image::new(dw, dh, src.pixel_type());
    let alg = fast_image_resize::ResizeAlg::Convolution(fast_image_resize::FilterType::Lanczos3);
    let _ = fast_image_resize::Resizer::new(alg).resize(&src.view(), &mut dst.view_mut());
    Ok(dst.into_vec())
}

/// Relies on image::guess_format, the format that `source` announces, and on
/// image::write_buffer_with_format, which encodes the RGBA pixels of a
/// `w` x `h` image in that format into an in-memory buffer.
#[verifier::external_body]
fn encode_like(source: &Vec<u8>, pixels: &Vec<u8>, w: u32, h: u32) -> (r: Result<Vec<u8>, image::ImageError>)
    requires
        w > 0,
        h > 0,
        pixels@.len() == 4 * w * h,
    ensures
        r is Ok <==> encoded_as(source@, pixels@, w, h) is Some,
        r matches Ok(v) ==> encoded_as(source@, pixels@, w, h) == Some(v@),
{
    let format = image::guess_format(source)?;
    let mut out = std::io::Cursor::new(Vec::new());
    image::write_buffer_with_format(&mut out, pixels, w, h, image::ColorType::Rgba8, format)?;
    Ok(out.into_inner())
}

/// The bytes that transcoding a decoded `w` x `h` image to `tw` x `th` gives.
pub open spec fn transcoded_bytes(input: Seq<u8>, w: u32, h: u32, px: Seq<u8>, tw: u32, th: u32) -> Option<Seq<u8>> {
    encoded_as(input, unpremultiplied(tw, th, lanczos3(w, h, premultiplied(w, h, px), tw, th)), tw, th)
}

/// What `resize` returns on `input`. Bytes that do not decode give an image
/// error; a side of zero pixels, or a scaled side of zero, gives
/// `ZeroDimension`; an image with both sides under the target side is left
/// alone (`Ok(None)`); an image with more pixels than `u32` counts gives
/// `Oversized`. Otherwise the result is the transcoded image at exactly
/// `target_size`, an image error exactly where that cannot be encoded, or a
/// pixel-buffer error where the allocator gave a misaligned buffer. Resampling
/// cannot fail: source and destination have the same pixel type.
pub open spec fn resize_outcome(input: Seq<u8>, r: Result<Option<Transcoded>, ImageikaError>) -> bool {
    match decoded_rgba(input) {
        None => r matches Err(ImageikaError::ImageError(_)),
        Some((w, h, px)) => {
            if w == 0 || h == 0 {
                r matches Err(ImageikaError::ZeroDimension)
            } else {
                match target_size(w as nat, h as nat) {
                    None => r matches Ok(None),
                    Some((tw, th)) => {
                        if tw == 0 || th == 0 {
                            r matches Err(ImageikaError::ZeroDimension)
                        } else if w * h > u32::MAX {
                            r matches Err(ImageikaError::Oversized)
                        } else {
                            match r {
                                Ok(Some(t)) => t.width == tw && t.height == th
                                    && transcoded_bytes(input, w, h, px, tw as u32, th as u32) == Some(t.bytes@),
                                Ok(None) => false,
                                Err(ImageikaError::ImageError(_)) =>
                                    transcoded_bytes(input, w, h, px, tw as u32, th as u32) is None,
                                Err(ImageikaError::ImageBufferError(_)) => true,
                                Err(_) => false,
                            }
                        }
                    },
                }
            }
        },
    }
}

/// Transcodes one encoded image: decodes it, multiplies color by alpha, scales
/// it with a Lanczos filter so that its longer side is the target side,
/// divides color by alpha again and encodes it in the format it came in.
/// `Ok(None)` where the image is small enough to be kept as it is.
pub fn resize(input: &Vec<u8>) -> (r: Result<Option<Transcoded>, ImageikaError>)
    ensures
        resize_outcome(input@, r),
{
    let img = match decode_rgba(input) {
        Ok(img) => img,
        Err(e) => return Err(ImageikaError::from(e)),
    };
    if img.width == 0 || img.height == 0 {
        return Err(ImageikaError::ZeroDimension);
    }
    let (tw, th) = match target_dimensions(img.width, img.height) {
        None => return Ok(None),
        Some(p) => p,
    };
    if tw == 0 || th == 0 {
        return Err(ImageikaError::ZeroDimension);
    }
    let (w64, h64) = (img.width as u64, img.height as u64);
    assert(w64 * h64 <= 0xffff_ffff * 0xffff_ffff) by (nonlinear_arith)
        requires w64 <= 0xffff_ffff, h64 <= 0xffff_ffff;
    if w64 * h64 > u32::MAX as u64 {
        return Err(ImageikaError::Oversized);
    }
    assert(tw * th <= 1000 * 1000) by (nonlinear_arith) requires tw <= 1000, th <= 1000;
    let src = multiply_alpha(img.width, img.height, img.pixels)?;
    let dst = resample_lanczos3(img.width, img.height, src, tw, th)?;
    let dst = divide_alpha(tw, th, dst)?;
    match encode_like(input, &dst, tw, th) {
        Ok(bytes) => Ok(Some(Transcoded { width: tw, height: th, bytes })),
        Err(e) => Err(ImageikaError::ImageError(e)),
    }
}

} // verus!
